//! The local catalog: every track and playlist the service has seen, and
//! which songs a playlist held at its last read.
//!
//! Songs and playlists are unique per (service, external id) and are
//! upserted on encounter, never destroyed.

use vstd::prelude::*;

use crate::strutil::str_eq;
use crate::track::{clone_string, TrackIdentity};

verus! {

/// One known song.
pub struct Song {
    pub id: i64,
    pub service: String,
    pub external_id: String,
    pub title: String,
    pub artist: Option<String>,
    pub album: Option<String>,
    pub duration_ms: Option<u32>,
    pub created_at: i64,
    pub updated_at: i64,
}

/// Mathematical model of a song row.
pub struct SongView {
    pub id: i64,
    pub service: Seq<char>,
    pub external_id: Seq<char>,
    pub title: Seq<char>,
    pub artist: Option<Seq<char>>,
    pub album: Option<Seq<char>>,
    pub duration_ms: Option<u32>,
    pub created_at: i64,
    pub updated_at: i64,
}

impl View for Song {
    type V = SongView;

    open spec fn view(&self) -> SongView {
        SongView {
            id: self.id,
            service: self.service@,
            external_id: self.external_id@,
            title: self.title@,
            artist: match self.artist {
                Some(ref a) => Some(a@),
                None => None,
            },
            album: match self.album {
                Some(ref a) => Some(a@),
                None => None,
            },
            duration_ms: self.duration_ms,
            created_at: self.created_at,
            updated_at: self.updated_at,
        }
    }
}

impl Song {
    /// Copy a song row; the copy models the same row.
    pub fn duplicate(&self) -> (r: Song)
        ensures
            r@ == self@,
    {
        Song {
            id: self.id,
            service: clone_string(&self.service),
            external_id: clone_string(&self.external_id),
            title: clone_string(&self.title),
            artist: match &self.artist {
                Some(a) => Some(clone_string(a)),
                None => None,
            },
            album: match &self.album {
                Some(a) => Some(clone_string(a)),
                None => None,
            },
            duration_ms: self.duration_ms,
            created_at: self.created_at,
            updated_at: self.updated_at,
        }
    }
}

/// The songs a store holds, as models.
pub open spec fn songs_of(s: SongRepository) -> Seq<SongView> {
    s.songs@.map_values(|x: Song| x@)
}

/// The index of the song of a (service, external id), if any.
pub open spec fn spec_song_find(rows: Seq<SongView>, service: Seq<char>, external_id: Seq<char>)
    -> Option<int> {
    if exists|i: int|
        0 <= i < rows.len() && (#[trigger] rows[i]).service == service && rows[i].external_id
            == external_id {
        Some(
            choose|i: int|
                0 <= i < rows.len() && (#[trigger] rows[i]).service == service
                    && rows[i].external_id == external_id,
        )
    } else {
        None
    }
}

/// The song of a (service, external id), if any.
pub open spec fn spec_song_lookup(
    rows: Seq<SongView>,
    service: Seq<char>,
    external_id: Seq<char>,
) -> Option<SongView> {
    match spec_song_find(rows, service, external_id) {
        Some(i) => Some(rows[i]),
        None => None,
    }
}

/// Store invariant: one song per (service, external id); ids unique and
/// below `next_id`.
pub open spec fn song_repo_wf(s: SongRepository) -> bool {
    let rows = songs_of(s);
    &&& forall|i: int, k: int|
        0 <= i < k < rows.len() ==> !((#[trigger] rows[i]).service == (
        #[trigger] rows[k]).service && rows[i].external_id == rows[k].external_id)
    &&& forall|i: int| 0 <= i < rows.len() ==> (#[trigger] rows[i]).id < s.next_id
    &&& forall|i: int, k: int|
        0 <= i < k < rows.len() ==> (#[trigger] rows[i]).id != (#[trigger] rows[k]).id
}

/// The store of known songs.
pub struct SongRepository {
    pub songs: Vec<Song>,
    pub next_id: i64,
}

impl SongRepository {
    /// An empty store.
    pub fn new() -> (s: SongRepository)
        ensures
            song_repo_wf(s),
            songs_of(s).len() == 0,
    {
        let s = SongRepository { songs: Vec::new(), next_id: 1 };
        proof {
            assert(songs_of(s) =~= Seq::<SongView>::empty());
        }
        s
    }

    /// The index of a (service, external id)'s song.
    fn find_song(&self, service: &str, external_id: &str) -> (r: Option<usize>)
        ensures
            r matches Some(i) ==> i < songs_of(*self).len() && songs_of(*self)[i as int].service
                == service@ && songs_of(*self)[i as int].external_id == external_id@,
            r is None ==> spec_song_find(songs_of(*self), service@, external_id@) is None,
    {
        let ghost rows = songs_of(*self);
        let mut i: usize = 0;
        while i < self.songs.len()
            invariant
                i <= rows.len(),
                rows == songs_of(*self),
                forall|k: int|
                    0 <= k < i ==> !((#[trigger] rows[k]).service == service@
                        && rows[k].external_id == external_id@),
            decreases rows.len() - i,
        {
            if str_eq(self.songs[i].service.as_str(), service) && str_eq(
                self.songs[i].external_id.as_str(),
                external_id,
            ) {
                return Some(i);
            }
            i += 1;
        }
        None
    }

    /// The song of a (service, external id), if any.
    pub fn get_song_by_service_id(&self, service: &str, external_id: &str) -> (r: Option<Song>)
        requires
            song_repo_wf(*self),
        ensures
            r matches Some(s) ==> spec_song_lookup(songs_of(*self), service@, external_id@)
                == Some(s@),
            r is None ==> spec_song_lookup(songs_of(*self), service@, external_id@) is None,
    {
        match self.find_song(service, external_id) {
            Some(i) => {
                proof {
                    lemma_song_unique(songs_of(*self), service@, external_id@, i as int);
                }
                Some(self.songs[i].duplicate())
            },
            None => None,
        }
    }

    /// Upsert a song under its (service, external id): the one row of the
    /// key carries the given metadata afterwards, and keeps its id if it
    /// already existed.
    pub fn upsert_song(&mut self, track: &TrackIdentity, external_id: &str, now: i64) -> (id: i64)
        requires
            song_repo_wf(*old(self)),
            old(self).next_id < i64::MAX,
        ensures
            song_repo_wf(*final(self)),
            final(self).next_id <= old(self).next_id + 1,
            spec_upsert_song_ok(
                songs_of(*old(self)),
                songs_of(*final(self)),
                track@,
                external_id@,
                id,
                now,
            ),
    {
        let ghost pre = songs_of(*self);
        match self.find_song(track.service.as_str(), external_id) {
            Some(i) => {
                let id = self.songs[i].id;
                let updated = Song {
                    id,
                    service: clone_string(&track.service),
                    external_id: external_id.to_owned(),
                    title: clone_string(&track.title),
                    artist: match &track.artist {
                        Some(a) => Some(clone_string(a)),
                        None => None,
                    },
                    album: match &track.album {
                        Some(a) => Some(clone_string(a)),
                        None => None,
                    },
                    duration_ms: track.duration_ms,
                    created_at: self.songs[i].created_at,
                    updated_at: now,
                };
                self.songs[i] = updated;
                proof {
                    let post = songs_of(*self);
                    assert(post =~= pre.update(i as int, post[i as int]));
                    assert forall|a: int, b: int|
                        0 <= a < b < post.len() implies !((#[trigger] post[a]).service == (
                    #[trigger] post[b]).service && post[a].external_id
                        == post[b].external_id) by {
                        assert(post[a].service == pre[a].service && post[a].external_id
                            == pre[a].external_id);
                        assert(post[b].service == pre[b].service && post[b].external_id
                            == pre[b].external_id);
                    }
                    assert forall|a: int| 0 <= a < post.len() implies (#[trigger] post[a]).id
                        < self.next_id by {
                        assert(post[a].id == pre[a].id);
                    }
                    assert forall|a: int, b: int| 0 <= a < b < post.len() implies (
                    #[trigger] post[a]).id != (#[trigger] post[b]).id by {
                        assert(post[a].id == pre[a].id && post[b].id == pre[b].id);
                    }
                    lemma_song_unique(post, track@.service, external_id@, i as int);
                    lemma_song_unique(pre, track@.service, external_id@, i as int);
                    assert forall|s2: Seq<char>, e2: Seq<char>|
                        !(s2 == track@.service && e2 == external_id@) implies #[trigger]
                    spec_song_lookup(post, s2, e2) == spec_song_lookup(pre, s2, e2) by {
                        lemma_song_lookup_other_update(pre, post, i as int, s2, e2);
                    }
                }
                id
            },
            None => {
                let id = self.next_id;
                let row = Song {
                    id,
                    service: clone_string(&track.service),
                    external_id: external_id.to_owned(),
                    title: clone_string(&track.title),
                    artist: match &track.artist {
                        Some(a) => Some(clone_string(a)),
                        None => None,
                    },
                    album: match &track.album {
                        Some(a) => Some(clone_string(a)),
                        None => None,
                    },
                    duration_ms: track.duration_ms,
                    created_at: now,
                    updated_at: now,
                };
                self.songs.push(row);
                self.next_id = id + 1;
                proof {
                    let post = songs_of(*self);
                    assert(post =~= pre.push(post[post.len() - 1]));
                    assert forall|a: int|
                        0 <= a < pre.len() implies !((#[trigger] pre[a]).service == track@.service
                        && pre[a].external_id == external_id@) by {
                        if pre[a].service == track@.service && pre[a].external_id
                            == external_id@ {
                            assert(exists|j: int|
                                0 <= j < pre.len() && (#[trigger] pre[j]).service == track@.service
                                    && pre[j].external_id == external_id@);
                        }
                    }
                    assert forall|a: int, b: int|
                        0 <= a < b < post.len() implies !((#[trigger] post[a]).service == (
                    #[trigger] post[b]).service && post[a].external_id
                        == post[b].external_id) by {
                        if b == post.len() - 1 {
                            assert(post[a] == pre[a]);
                        } else {
                            assert(post[a] == pre[a] && post[b] == pre[b]);
                        }
                    }
                    assert forall|a: int| 0 <= a < post.len() implies (#[trigger] post[a]).id
                        < self.next_id by {
                        if a < post.len() - 1 {
                            assert(post[a] == pre[a]);
                        }
                    }
                    assert forall|a: int, b: int| 0 <= a < b < post.len() implies (
                    #[trigger] post[a]).id != (#[trigger] post[b]).id by {
                        if b == post.len() - 1 {
                            assert(post[a] == pre[a]);
                        } else {
                            assert(post[a] == pre[a] && post[b] == pre[b]);
                        }
                    }
                    lemma_song_unique(post, track@.service, external_id@, post.len() - 1);
                    assert forall|s2: Seq<char>, e2: Seq<char>|
                        !(s2 == track@.service && e2 == external_id@) implies #[trigger]
                    spec_song_lookup(post, s2, e2) == spec_song_lookup(pre, s2, e2) by {
                        lemma_song_lookup_other_push(pre, post, s2, e2);
                    }
                }
                id
            },
        }
    }
}

/// What an upsert guarantees: the key's one row carries the track's
/// metadata and the given id; an existing row keeps its id and creation
/// time, a fresh row is created now; every other key reads as before.
pub open spec fn spec_upsert_song_ok(
    pre: Seq<SongView>,
    post: Seq<SongView>,
    track: crate::track::TrackIdentityView,
    external_id: Seq<char>,
    id: i64,
    now: i64,
) -> bool {
    &&& match spec_song_lookup(post, track.service, external_id) {
        Some(s) => {
            &&& s.id == id
            &&& s.title == track.title
            &&& s.artist == track.artist
            &&& s.album == track.album
            &&& s.duration_ms == track.duration_ms
            &&& s.updated_at == now
            &&& match spec_song_lookup(pre, track.service, external_id) {
                Some(o) => s.id == o.id && s.created_at == o.created_at,
                None => s.created_at == now,
            }
        },
        None => false,
    }
    &&& match spec_song_lookup(pre, track.service, external_id) {
        Some(old_row) => id == old_row.id && post.len() == pre.len(),
        None => post.len() == pre.len() + 1,
    }
    &&& forall|s2: Seq<char>, e2: Seq<char>|
        !(s2 == track.service && e2 == external_id) ==> #[trigger] spec_song_lookup(post, s2, e2)
            == spec_song_lookup(pre, s2, e2)
}

/// One known playlist.
pub struct Playlist {
    pub id: i64,
    pub service: String,
    pub external_id: String,
    pub name: String,
    pub description: Option<String>,
    pub total_tracks: usize,
    pub is_public: bool,
    pub owner_id: Option<String>,
    pub created_at: i64,
    pub updated_at: i64,
}

/// Mathematical model of a playlist row.
pub struct PlaylistView {
    pub id: i64,
    pub service: Seq<char>,
    pub external_id: Seq<char>,
    pub name: Seq<char>,
    pub description: Option<Seq<char>>,
    pub total_tracks: usize,
    pub is_public: bool,
    pub owner_id: Option<Seq<char>>,
    pub created_at: i64,
    pub updated_at: i64,
}

impl View for Playlist {
    type V = PlaylistView;

    open spec fn view(&self) -> PlaylistView {
        PlaylistView {
            id: self.id,
            service: self.service@,
            external_id: self.external_id@,
            name: self.name@,
            description: match self.description {
                Some(ref d) => Some(d@),
                None => None,
            },
            total_tracks: self.total_tracks,
            is_public: self.is_public,
            owner_id: match self.owner_id {
                Some(ref o) => Some(o@),
                None => None,
            },
            created_at: self.created_at,
            updated_at: self.updated_at,
        }
    }
}

impl Playlist {
    /// Copy a playlist row; the copy models the same row.
    pub fn duplicate(&self) -> (r: Playlist)
        ensures
            r@ == self@,
    {
        Playlist {
            id: self.id,
            service: clone_string(&self.service),
            external_id: clone_string(&self.external_id),
            name: clone_string(&self.name),
            description: match &self.description {
                Some(d) => Some(clone_string(d)),
                None => None,
            },
            total_tracks: self.total_tracks,
            is_public: self.is_public,
            owner_id: match &self.owner_id {
                Some(o) => Some(clone_string(o)),
                None => None,
            },
            created_at: self.created_at,
            updated_at: self.updated_at,
        }
    }
}

/// The playlists a store holds, as models.
pub open spec fn playlists_of(s: PlaylistRepository) -> Seq<PlaylistView> {
    s.playlists@.map_values(|x: Playlist| x@)
}

/// The playlist of a (service, external id), if any.
pub open spec fn spec_playlist_lookup(
    rows: Seq<PlaylistView>,
    service: Seq<char>,
    external_id: Seq<char>,
) -> Option<PlaylistView> {
    if exists|i: int|
        0 <= i < rows.len() && (#[trigger] rows[i]).service == service && rows[i].external_id
            == external_id {
        Some(
            rows[choose|i: int|
                0 <= i < rows.len() && (#[trigger] rows[i]).service == service
                    && rows[i].external_id == external_id],
        )
    } else {
        None
    }
}

/// Store invariant: one playlist per (service, external id); ids unique
/// and below `next_id`.
pub open spec fn playlist_repo_wf(s: PlaylistRepository) -> bool {
    let rows = playlists_of(s);
    &&& forall|i: int, k: int|
        0 <= i < k < rows.len() ==> !((#[trigger] rows[i]).service == (
        #[trigger] rows[k]).service && rows[i].external_id == rows[k].external_id)
    &&& forall|i: int| 0 <= i < rows.len() ==> (#[trigger] rows[i]).id < s.next_id
    &&& forall|i: int, k: int|
        0 <= i < k < rows.len() ==> (#[trigger] rows[i]).id != (#[trigger] rows[k]).id
}

/// The store of known playlists.
pub struct PlaylistRepository {
    pub playlists: Vec<Playlist>,
    pub next_id: i64,
}

/// What a playlist upsert guarantees: the key's one row carries the given
/// metadata; an existing row keeps its id and creation time, a fresh row
/// is created now; every other key reads as before.
pub open spec fn spec_upsert_playlist_ok(
    pre: Seq<PlaylistView>,
    post: Seq<PlaylistView>,
    service: Seq<char>,
    external_id: Seq<char>,
    name: Seq<char>,
    description: Option<Seq<char>>,
    total_tracks: usize,
    is_public: bool,
    owner_id: Option<Seq<char>>,
    id: i64,
    now: i64,
) -> bool {
    &&& match spec_playlist_lookup(post, service, external_id) {
        Some(p) => {
            &&& p.id == id
            &&& p.name == name
            &&& p.description == description
            &&& p.total_tracks == total_tracks
            &&& p.is_public == is_public
            &&& p.owner_id == owner_id
            &&& p.updated_at == now
            &&& match spec_playlist_lookup(pre, service, external_id) {
                Some(o) => p.id == o.id && p.created_at == o.created_at,
                None => p.created_at == now,
            }
        },
        None => false,
    }
    &&& match spec_playlist_lookup(pre, service, external_id) {
        Some(o) => id == o.id && post.len() == pre.len(),
        None => post.len() == pre.len() + 1,
    }
    &&& forall|s2: Seq<char>, e2: Seq<char>|
        !(s2 == service && e2 == external_id) ==> #[trigger] spec_playlist_lookup(post, s2, e2)
            == spec_playlist_lookup(pre, s2, e2)
}

impl PlaylistRepository {
    /// An empty store.
    pub fn new() -> (s: PlaylistRepository)
        ensures
            playlist_repo_wf(s),
            playlists_of(s).len() == 0,
    {
        let s = PlaylistRepository { playlists: Vec::new(), next_id: 1 };
        proof {
            assert(playlists_of(s) =~= Seq::<PlaylistView>::empty());
        }
        s
    }

    /// The index of a (service, external id)'s playlist.
    fn find_playlist(&self, service: &str, external_id: &str) -> (r: Option<usize>)
        ensures
            r matches Some(i) ==> i < playlists_of(*self).len() && playlists_of(
                *self,
            )[i as int].service == service@ && playlists_of(*self)[i as int].external_id
                == external_id@,
            r is None ==> !(exists|j: int|
                0 <= j < playlists_of(*self).len() && (#[trigger] playlists_of(
                    *self,
                )[j]).service == service@ && playlists_of(*self)[j].external_id == external_id@),
    {
        let ghost rows = playlists_of(*self);
        let mut i: usize = 0;
        while i < self.playlists.len()
            invariant
                i <= rows.len(),
                rows == playlists_of(*self),
                forall|k: int|
                    0 <= k < i ==> !((#[trigger] rows[k]).service == service@
                        && rows[k].external_id == external_id@),
            decreases rows.len() - i,
        {
            if str_eq(self.playlists[i].service.as_str(), service) && str_eq(
                self.playlists[i].external_id.as_str(),
                external_id,
            ) {
                return Some(i);
            }
            i += 1;
        }
        None
    }

    /// The playlist of a (service, external id), if any.
    pub fn get_playlist(&self, service: &str, external_id: &str) -> (r: Option<Playlist>)
        requires
            playlist_repo_wf(*self),
        ensures
            r matches Some(p) ==> spec_playlist_lookup(playlists_of(*self), service@, external_id@)
                == Some(p@),
            r is None ==> spec_playlist_lookup(
                playlists_of(*self),
                service@,
                external_id@,
            ) is None,
    {
        match self.find_playlist(service, external_id) {
            Some(i) => {
                proof {
                    lemma_playlist_unique(playlists_of(*self), service@, external_id@, i as int);
                }
                Some(self.playlists[i].duplicate())
            },
            None => None,
        }
    }

    /// Upsert a playlist under its (service, external id).
    pub fn upsert_playlist(
        &mut self,
        service: &str,
        external_id: &str,
        name: &str,
        description: Option<&str>,
        total_tracks: usize,
        is_public: bool,
        owner_id: Option<&str>,
        now: i64,
    ) -> (id: i64)
        requires
            playlist_repo_wf(*old(self)),
            old(self).next_id < i64::MAX,
        ensures
            playlist_repo_wf(*final(self)),
            final(self).next_id <= old(self).next_id + 1,
            spec_upsert_playlist_ok(
                playlists_of(*old(self)),
                playlists_of(*final(self)),
                service@,
                external_id@,
                name@,
                match description {
                    Some(d) => Some(d@),
                    None => None,
                },
                total_tracks,
                is_public,
                match owner_id {
                    Some(o) => Some(o@),
                    None => None,
                },
                id,
                now,
            ),
    {
        let ghost pre = playlists_of(*self);
        match self.find_playlist(service, external_id) {
            Some(i) => {
                let id = self.playlists[i].id;
                let updated = Playlist {
                    id,
                    service: service.to_owned(),
                    external_id: external_id.to_owned(),
                    name: name.to_owned(),
                    description: match description {
                        Some(d) => Some(d.to_owned()),
                        None => None,
                    },
                    total_tracks,
                    is_public,
                    owner_id: match owner_id {
                        Some(o) => Some(o.to_owned()),
                        None => None,
                    },
                    created_at: self.playlists[i].created_at,
                    updated_at: now,
                };
                self.playlists[i] = updated;
                proof {
                    let post = playlists_of(*self);
                    assert(post =~= pre.update(i as int, post[i as int]));
                    assert forall|a: int, b: int|
                        0 <= a < b < post.len() implies !((#[trigger] post[a]).service == (
                    #[trigger] post[b]).service && post[a].external_id
                        == post[b].external_id) by {
                        assert(post[a].service == pre[a].service && post[a].external_id
                            == pre[a].external_id);
                        assert(post[b].service == pre[b].service && post[b].external_id
                            == pre[b].external_id);
                    }
                    assert forall|a: int| 0 <= a < post.len() implies (#[trigger] post[a]).id
                        < self.next_id by {
                        assert(post[a].id == pre[a].id);
                    }
                    assert forall|a: int, b: int| 0 <= a < b < post.len() implies (
                    #[trigger] post[a]).id != (#[trigger] post[b]).id by {
                        assert(post[a].id == pre[a].id && post[b].id == pre[b].id);
                    }
                    lemma_playlist_unique(post, service@, external_id@, i as int);
                    lemma_playlist_unique(pre, service@, external_id@, i as int);
                    assert forall|s2: Seq<char>, e2: Seq<char>|
                        !(s2 == service@ && e2 == external_id@) implies #[trigger]
                    spec_playlist_lookup(post, s2, e2) == spec_playlist_lookup(pre, s2, e2) by {
                        lemma_playlist_lookup_other_update(pre, post, i as int, s2, e2);
                    }
                }
                id
            },
            None => {
                let id = self.next_id;
                let row = Playlist {
                    id,
                    service: service.to_owned(),
                    external_id: external_id.to_owned(),
                    name: name.to_owned(),
                    description: match description {
                        Some(d) => Some(d.to_owned()),
                        None => None,
                    },
                    total_tracks,
                    is_public,
                    owner_id: match owner_id {
                        Some(o) => Some(o.to_owned()),
                        None => None,
                    },
                    created_at: now,
                    updated_at: now,
                };
                self.playlists.push(row);
                self.next_id = id + 1;
                proof {
                    let post = playlists_of(*self);
                    assert(post =~= pre.push(post[post.len() - 1]));
                    assert forall|a: int|
                        0 <= a < pre.len() implies !((#[trigger] pre[a]).service == service@
                        && pre[a].external_id == external_id@) by {
                        if pre[a].service == service@ && pre[a].external_id == external_id@ {
                            assert(exists|j: int|
                                0 <= j < pre.len() && (#[trigger] pre[j]).service == service@
                                    && pre[j].external_id == external_id@);
                        }
                    }
                    assert forall|a: int, b: int|
                        0 <= a < b < post.len() implies !((#[trigger] post[a]).service == (
                    #[trigger] post[b]).service && post[a].external_id
                        == post[b].external_id) by {
                        if b == post.len() - 1 {
                            assert(post[a] == pre[a]);
                        } else {
                            assert(post[a] == pre[a] && post[b] == pre[b]);
                        }
                    }
                    assert forall|a: int| 0 <= a < post.len() implies (#[trigger] post[a]).id
                        < self.next_id by {
                        if a < post.len() - 1 {
                            assert(post[a] == pre[a]);
                        }
                    }
                    assert forall|a: int, b: int| 0 <= a < b < post.len() implies (
                    #[trigger] post[a]).id != (#[trigger] post[b]).id by {
                        if b == post.len() - 1 {
                            assert(post[a] == pre[a]);
                        } else {
                            assert(post[a] == pre[a] && post[b] == pre[b]);
                        }
                    }
                    lemma_playlist_unique(post, service@, external_id@, post.len() - 1);
                    assert forall|s2: Seq<char>, e2: Seq<char>|
                        !(s2 == service@ && e2 == external_id@) implies #[trigger]
                    spec_playlist_lookup(post, s2, e2) == spec_playlist_lookup(pre, s2, e2) by {
                        lemma_playlist_lookup_other_push(pre, post, s2, e2);
                    }
                }
                id
            },
        }
    }
}

/// When row `i` is the key's one playlist, the lookup lands on it.
proof fn lemma_playlist_unique(
    rows: Seq<PlaylistView>,
    service: Seq<char>,
    external_id: Seq<char>,
    i: int,
)
    requires
        0 <= i < rows.len(),
        rows[i].service == service,
        rows[i].external_id == external_id,
        forall|a: int, b: int|
            0 <= a < b < rows.len() ==> !((#[trigger] rows[a]).service == (
            #[trigger] rows[b]).service && rows[a].external_id == rows[b].external_id),
    ensures
        spec_playlist_lookup(rows, service, external_id) == Some(rows[i]),
{
    let j = choose|j: int|
        0 <= j < rows.len() && (#[trigger] rows[j]).service == service && rows[j].external_id
            == external_id;
    if i != j {
        if i < j {
            assert(!(rows[i].service == rows[j].service && rows[i].external_id
                == rows[j].external_id));
        } else {
            assert(!(rows[j].service == rows[i].service && rows[j].external_id
                == rows[i].external_id));
        }
    }
}

/// For keys other than row `i`'s, an in-place update changes no lookup.
proof fn lemma_playlist_lookup_other_update(
    pre: Seq<PlaylistView>,
    post: Seq<PlaylistView>,
    i: int,
    s2: Seq<char>,
    e2: Seq<char>,
)
    requires
        0 <= i < pre.len(),
        post == pre.update(i, post[i]),
        pre[i].service == post[i].service,
        pre[i].external_id == post[i].external_id,
        !(pre[i].service == s2 && pre[i].external_id == e2),
        forall|a: int, b: int|
            0 <= a < b < pre.len() ==> !((#[trigger] pre[a]).service == (
            #[trigger] pre[b]).service && pre[a].external_id == pre[b].external_id),
    ensures
        spec_playlist_lookup(post, s2, e2) == spec_playlist_lookup(pre, s2, e2),
{
    assert forall|a: int, b: int|
        0 <= a < b < post.len() implies !((#[trigger] post[a]).service == (
    #[trigger] post[b]).service && post[a].external_id == post[b].external_id) by {
        assert(post[a].service == pre[a].service && post[a].external_id == pre[a].external_id);
        assert(post[b].service == pre[b].service && post[b].external_id == pre[b].external_id);
    }
    if exists|j: int|
        0 <= j < pre.len() && (#[trigger] pre[j]).service == s2 && pre[j].external_id == e2 {
        let j = choose|j: int|
            0 <= j < pre.len() && (#[trigger] pre[j]).service == s2 && pre[j].external_id == e2;
        assert(post[j] == pre[j]);
        lemma_playlist_unique(pre, s2, e2, j);
        lemma_playlist_unique(post, s2, e2, j);
    } else {
        if exists|j: int|
            0 <= j < post.len() && (#[trigger] post[j]).service == s2 && post[j].external_id
                == e2 {
            let j = choose|j: int|
                0 <= j < post.len() && (#[trigger] post[j]).service == s2 && post[j].external_id
                    == e2;
            assert(pre[j] == post[j]);
        }
    }
}

/// For keys other than the new row's, a push changes no lookup.
proof fn lemma_playlist_lookup_other_push(
    pre: Seq<PlaylistView>,
    post: Seq<PlaylistView>,
    s2: Seq<char>,
    e2: Seq<char>,
)
    requires
        post.len() == pre.len() + 1,
        post == pre.push(post[post.len() - 1]),
        !(post[post.len() - 1].service == s2 && post[post.len() - 1].external_id == e2),
        forall|a: int, b: int|
            0 <= a < b < pre.len() ==> !((#[trigger] pre[a]).service == (
            #[trigger] pre[b]).service && pre[a].external_id == pre[b].external_id),
        forall|a: int|
            0 <= a < pre.len() ==> !((#[trigger] pre[a]).service == post[post.len()
                - 1].service && pre[a].external_id == post[post.len() - 1].external_id),
    ensures
        spec_playlist_lookup(post, s2, e2) == spec_playlist_lookup(pre, s2, e2),
{
    if exists|j: int|
        0 <= j < pre.len() && (#[trigger] pre[j]).service == s2 && pre[j].external_id == e2 {
        let j = choose|j: int|
            0 <= j < pre.len() && (#[trigger] pre[j]).service == s2 && pre[j].external_id == e2;
        assert(post[j] == pre[j]);
        lemma_playlist_unique(pre, s2, e2, j);
        assert forall|a: int, b: int|
            0 <= a < b < post.len() implies !((#[trigger] post[a]).service == (
        #[trigger] post[b]).service && post[a].external_id == post[b].external_id) by {
            if b < post.len() - 1 {
                assert(post[a] == pre[a] && post[b] == pre[b]);
            } else {
                assert(post[a] == pre[a]);
            }
        }
        lemma_playlist_unique(post, s2, e2, j);
    } else {
        if exists|j: int|
            0 <= j < post.len() && (#[trigger] post[j]).service == s2 && post[j].external_id
                == e2 {
            let j = choose|j: int|
                0 <= j < post.len() && (#[trigger] post[j]).service == s2 && post[j].external_id
                    == e2;
            assert(j < pre.len());
            assert(pre[j] == post[j]);
        }
    }
}

/// One song of a stored playlist snapshot: which song stands at which
/// position.
pub struct PlaylistSong {
    pub playlist_id: i64,
    pub song_id: i64,
    pub position: usize,
}

/// The snapshot links a store holds.
pub open spec fn links_of(s: PlaylistLinks) -> Seq<PlaylistSong> {
    s.links@
}

/// The per-playlist snapshot store: which songs a playlist held, in
/// order, at its last read.
pub struct PlaylistLinks {
    pub links: Vec<PlaylistSong>,
}

impl PlaylistLinks {
    /// An empty store.
    pub fn new() -> (s: PlaylistLinks)
        ensures
            links_of(s).len() == 0,
    {
        PlaylistLinks { links: Vec::new() }
    }

    /// Replace a playlist's stored snapshot with the given songs: the old
    /// links of that playlist go, and the new ones stand at positions
    /// `0..n` in order.  Links of other playlists stay.
    pub fn replace_playlist_songs(&mut self, playlist_id: i64, song_ids: &Vec<i64>)
        ensures
            spec_playlist_links(links_of(*final(self)), playlist_id) == Seq::new(
                song_ids@.len(),
                |i: int| song_ids@[i],
            ),
            forall|p2: i64|
                p2 != playlist_id ==> #[trigger] spec_playlist_links(links_of(*final(self)), p2)
                    == spec_playlist_links(links_of(*old(self)), p2),
    {
        let mut kept: Vec<PlaylistSong> = Vec::new();
        let ghost pre = links_of(*self);
        let mut i: usize = 0;
        proof {
            assert(kept@ =~= spec_without_playlist(pre, playlist_id, 0));
        }
        while i < self.links.len()
            invariant
                i <= pre.len(),
                pre == links_of(*self),
                kept@ == spec_without_playlist(pre, playlist_id, i as int),
            decreases pre.len() - i,
        {
            if self.links[i].playlist_id != playlist_id {
                kept.push(
                    PlaylistSong {
                        playlist_id: self.links[i].playlist_id,
                        song_id: self.links[i].song_id,
                        position: self.links[i].position,
                    },
                );
            }
            i += 1;
        }
        let mut k: usize = 0;
        let ghost base = kept@;
        proof {
            lemma_without_playlist_clean(pre, playlist_id, pre.len() as int);
            assert forall|p2: i64| p2 != playlist_id implies #[trigger] spec_playlist_links(
                base,
                p2,
            ) == spec_playlist_links(pre, p2) by {
                lemma_links_filter_other(pre, playlist_id, p2, pre.len() as int);
                assert(pre.take(pre.len() as int) =~= pre);
            }
            assert(spec_playlist_links(base, playlist_id) =~= Seq::<i64>::empty());
        }
        while k < song_ids.len()
            invariant
                k <= song_ids@.len(),
                kept@.len() >= base.len(),
                spec_playlist_links(kept@, playlist_id) =~= Seq::new(k as nat, |i: int| song_ids@[i]),
                forall|p2: i64|
                    p2 != playlist_id ==> #[trigger] spec_playlist_links(kept@, p2)
                        == spec_playlist_links(base, p2),
            decreases song_ids@.len() - k,
        {
            let ghost before = kept@;
            kept.push(PlaylistSong { playlist_id, song_id: song_ids[k], position: k });
            proof {
                lemma_links_push(before, playlist_id, song_ids@[k as int], k as int);
                assert(spec_playlist_links(kept@, playlist_id) =~= Seq::new(
                    (k + 1) as nat,
                    |i: int| song_ids@[i],
                ));
                assert forall|p2: i64| p2 != playlist_id implies #[trigger] spec_playlist_links(
                    kept@,
                    p2,
                ) == spec_playlist_links(base, p2) by {
                    lemma_links_push_other(before, playlist_id, song_ids@[k as int], k as int, p2);
                }
            }
            k += 1;
        }
        self.links = kept;
    }
}

/// The (service, external id) keys of the snapshot's tracks that carry
/// an external id, in snapshot order, among tracks `[0, i)`.
pub open spec fn spec_snapshot_id_keys(
    tracks: Seq<crate::track::TrackIdentityView>,
    i: int,
) -> Seq<(Seq<char>, Seq<char>)>
    decreases i,
{
    if i <= 0 {
        Seq::empty()
    } else {
        let rest = spec_snapshot_id_keys(tracks, i - 1);
        match tracks[i - 1].external_id {
            Some(e) => rest.push((tracks[i - 1].service, e)),
            None => rest,
        }
    }
}

/// The stored ids stand for the snapshot: the `k`-th stored id is the id
/// the song store holds, after the call, under the `k`-th id-carrying
/// track's key.
pub open spec fn spec_snapshot_ids_ok(
    songs: Seq<SongView>,
    tracks: Seq<crate::track::TrackIdentityView>,
    ids: Seq<i64>,
) -> bool {
    let keys = spec_snapshot_id_keys(tracks, tracks.len() as int);
    &&& ids.len() == keys.len()
    &&& forall|k: int|
        0 <= k < ids.len() ==> match spec_song_lookup(
            songs,
            (#[trigger] keys[k]).0,
            keys[k].1,
        ) {
            Some(s) => s.id == ids[k],
            None => false,
        }
}

/// Store one playlist read: upsert the playlist row under its key, upsert
/// every track that carries an external id as a song, and replace the
/// playlist's links with those songs in snapshot order.  The returned ids
/// are the linked songs' ids, in order; links of other playlists stay.
pub fn store_playlist_snapshot(
    playlists: &mut PlaylistRepository,
    songs: &mut SongRepository,
    links: &mut PlaylistLinks,
    service: &str,
    external_id: &str,
    name: &str,
    description: Option<&str>,
    is_public: bool,
    owner_id: Option<&str>,
    tracks: &Vec<TrackIdentity>,
    now: i64,
) -> (song_ids: Vec<i64>)
    requires
        playlist_repo_wf(*old(playlists)),
        old(playlists).next_id < i64::MAX,
        song_repo_wf(*old(songs)),
        old(songs).next_id <= i64::MAX - tracks@.len(),
    ensures
        playlist_repo_wf(*final(playlists)),
        song_repo_wf(*final(songs)),
        spec_snapshot_ids_ok(
            songs_of(*final(songs)),
            tracks@.map_values(|t: TrackIdentity| t@),
            song_ids@,
        ),
        spec_snapshot_stored(
            playlists_of(*old(playlists)),
            playlists_of(*final(playlists)),
            links_of(*final(links)),
            links_of(*old(links)),
            service@,
            external_id@,
            name@,
            match description {
                Some(d) => Some(d@),
                None => None,
            },
            is_public,
            match owner_id {
                Some(o) => Some(o@),
                None => None,
            },
            tracks@.len() as usize,
            song_ids@,
            now,
        ),
{
    let ghost tv = tracks@.map_values(|t: TrackIdentity| t@);
    let pid = playlists.upsert_playlist(
        service,
        external_id,
        name,
        description,
        tracks.len(),
        is_public,
        owner_id,
        now,
    );
    let mut song_ids: Vec<i64> = Vec::new();
    let mut i: usize = 0;
    while i < tracks.len()
        invariant
            i <= tv.len(),
            tv == tracks@.map_values(|t: TrackIdentity| t@),
            song_repo_wf(*songs),
            songs.next_id <= old(songs).next_id + i,
            old(songs).next_id <= i64::MAX - tv.len(),
            song_ids@.len() == spec_snapshot_id_keys(tv, i as int).len(),
            forall|k: int|
                0 <= k < song_ids@.len() ==> match spec_song_lookup(
                    songs_of(*songs),
                    (#[trigger] spec_snapshot_id_keys(tv, i as int)[k]).0,
                    spec_snapshot_id_keys(tv, i as int)[k].1,
                ) {
                    Some(s) => s.id == song_ids@[k],
                    None => false,
                },
        decreases tv.len() - i,
    {
        let ghost keys_pre = spec_snapshot_id_keys(tv, i as int);
        let ghost songs_pre = songs_of(*songs);
        match &tracks[i].external_id {
            Some(id) => {
                let eid = clone_string(id);
                let song_id = songs.upsert_song(&tracks[i], eid.as_str(), now);
                song_ids.push(song_id);
                proof {
                    let keys_post = spec_snapshot_id_keys(tv, i + 1);
                    let cur = (tv[i as int].service, eid@);
                    assert(keys_post == keys_pre.push(cur));
                    assert forall|k: int|
                        0 <= k < song_ids@.len() implies match spec_song_lookup(
                        songs_of(*songs),
                        (#[trigger] keys_post[k]).0,
                        keys_post[k].1,
                    ) {
                        Some(s) => s.id == song_ids@[k],
                        None => false,
                    } by {
                        if k < song_ids@.len() - 1 {
                            assert(keys_post[k] == keys_pre[k]);
                            if keys_pre[k].0 == cur.0 && keys_pre[k].1 == cur.1 {
                                assert(spec_song_lookup(songs_pre, cur.0, cur.1) matches Some(o)
                                    && o.id == song_ids@[k]);
                            }
                        } else {
                            assert(keys_post[k] == cur);
                        }
                    }
                }
            },
            None => {
                proof {
                    assert(spec_snapshot_id_keys(tv, i + 1) == keys_pre);
                }
            },
        }
        i += 1;
    }
    let out_ids = song_ids;
    links.replace_playlist_songs(pid, &out_ids);
    proof {
        assert(Seq::new(out_ids@.len(), |k: int| out_ids@[k]) =~= out_ids@);
    }
    out_ids
}

/// What storing a snapshot guarantees about the playlist row and the
/// links: the row of the key carries the snapshot's metadata, its link
/// list is exactly the stored ids in order, and every other playlist's
/// links read as before.
pub open spec fn spec_snapshot_stored(
    p_pre: Seq<PlaylistView>,
    p_post: Seq<PlaylistView>,
    l_post: Seq<PlaylistSong>,
    l_pre: Seq<PlaylistSong>,
    service: Seq<char>,
    external_id: Seq<char>,
    name: Seq<char>,
    description: Option<Seq<char>>,
    is_public: bool,
    owner_id: Option<Seq<char>>,
    total_tracks: usize,
    ids: Seq<i64>,
    now: i64,
) -> bool {
    match spec_playlist_lookup(p_post, service, external_id) {
        Some(p) => {
            &&& spec_upsert_playlist_ok(
                p_pre,
                p_post,
                service,
                external_id,
                name,
                description,
                total_tracks,
                is_public,
                owner_id,
                p.id,
                now,
            )
            &&& spec_playlist_links(l_post, p.id) == ids
            &&& forall|p2: i64|
                p2 != p.id ==> #[trigger] spec_playlist_links(l_post, p2) == spec_playlist_links(
                    l_pre,
                    p2,
                )
        },
        None => false,
    }
}

/// The song ids of one playlist's links, in stored order.
pub open spec fn spec_playlist_links(links: Seq<PlaylistSong>, playlist_id: i64) -> Seq<i64>
    decreases links.len(),
{
    if links.len() == 0 {
        Seq::empty()
    } else {
        let rest = spec_playlist_links(links.drop_last(), playlist_id);
        if links.last().playlist_id == playlist_id {
            rest.push(links.last().song_id)
        } else {
            rest
        }
    }
}

/// The links `[0, i)` with one playlist's links dropped.
pub open spec fn spec_without_playlist(
    links: Seq<PlaylistSong>,
    playlist_id: i64,
    i: int,
) -> Seq<PlaylistSong>
    decreases i,
{
    if i <= 0 {
        Seq::empty()
    } else if links[i - 1].playlist_id != playlist_id {
        spec_without_playlist(links, playlist_id, i - 1).push(links[i - 1])
    } else {
        spec_without_playlist(links, playlist_id, i - 1)
    }
}

/// The filtered links hold nothing of the dropped playlist.
proof fn lemma_without_playlist_clean(links: Seq<PlaylistSong>, playlist_id: i64, i: int)
    requires
        0 <= i <= links.len(),
    ensures
        forall|a: int|
            0 <= a < spec_without_playlist(links, playlist_id, i).len() ==> (
            #[trigger] spec_without_playlist(links, playlist_id, i)[a]).playlist_id
                != playlist_id,
        spec_playlist_links(spec_without_playlist(links, playlist_id, i), playlist_id)
            == Seq::<i64>::empty(),
    decreases i,
{
    if i > 0 {
        lemma_without_playlist_clean(links, playlist_id, i - 1);
        if links[i - 1].playlist_id != playlist_id {
            let w = spec_without_playlist(links, playlist_id, i);
            assert(w.drop_last() =~= spec_without_playlist(links, playlist_id, i - 1));
        }
    }
}

/// Filtering one playlist out leaves every other playlist's links as they
/// were.
proof fn lemma_links_filter_other(
    links: Seq<PlaylistSong>,
    playlist_id: i64,
    p2: i64,
    i: int,
)
    requires
        0 <= i <= links.len(),
        p2 != playlist_id,
    ensures
        spec_playlist_links(spec_without_playlist(links, playlist_id, i), p2)
            == spec_playlist_links(links.take(i), p2),
    decreases i,
{
    if i > 0 {
        lemma_links_filter_other(links, playlist_id, p2, i - 1);
        assert(links.take(i).drop_last() =~= links.take(i - 1));
        assert(links.take(i).last() == links[i - 1]);
        if links[i - 1].playlist_id != playlist_id {
            let w = spec_without_playlist(links, playlist_id, i);
            assert(w.drop_last() =~= spec_without_playlist(links, playlist_id, i - 1));
        }
    } else {
        assert(links.take(0) =~= Seq::<PlaylistSong>::empty());
    }
}

/// Appending one link of a playlist appends its song id to that
/// playlist's sequence.
proof fn lemma_links_push(links: Seq<PlaylistSong>, playlist_id: i64, song_id: i64, position: int)
    requires
        position >= 0,
    ensures
        spec_playlist_links(
            links.push(
                PlaylistSong { playlist_id, song_id, position: position as usize },
            ),
            playlist_id,
        ) == spec_playlist_links(links, playlist_id).push(song_id),
{
    let pushed = links.push(PlaylistSong { playlist_id, song_id, position: position as usize });
    assert(pushed.drop_last() =~= links);
}

/// Appending one link of a playlist leaves every other playlist's
/// sequence as it was.
proof fn lemma_links_push_other(
    links: Seq<PlaylistSong>,
    playlist_id: i64,
    song_id: i64,
    position: int,
    p2: i64,
)
    requires
        position >= 0,
        p2 != playlist_id,
    ensures
        spec_playlist_links(
            links.push(
                PlaylistSong { playlist_id, song_id, position: position as usize },
            ),
            p2,
        ) == spec_playlist_links(links, p2),
{
    let pushed = links.push(PlaylistSong { playlist_id, song_id, position: position as usize });
    assert(pushed.drop_last() =~= links);
}

/// For keys other than row `i`'s, an in-place update changes no lookup.
proof fn lemma_song_lookup_other_update(
    pre: Seq<SongView>,
    post: Seq<SongView>,
    i: int,
    s2: Seq<char>,
    e2: Seq<char>,
)
    requires
        0 <= i < pre.len(),
        post == pre.update(i, post[i]),
        pre[i].service == post[i].service,
        pre[i].external_id == post[i].external_id,
        !(pre[i].service == s2 && pre[i].external_id == e2),
        forall|a: int, b: int|
            0 <= a < b < pre.len() ==> !((#[trigger] pre[a]).service == (
            #[trigger] pre[b]).service && pre[a].external_id == pre[b].external_id),
    ensures
        spec_song_lookup(post, s2, e2) == spec_song_lookup(pre, s2, e2),
{
    assert forall|a: int, b: int|
        0 <= a < b < post.len() implies !((#[trigger] post[a]).service == (
    #[trigger] post[b]).service && post[a].external_id == post[b].external_id) by {
        assert(post[a].service == pre[a].service && post[a].external_id == pre[a].external_id);
        assert(post[b].service == pre[b].service && post[b].external_id == pre[b].external_id);
    }
    if exists|j: int|
        0 <= j < pre.len() && (#[trigger] pre[j]).service == s2 && pre[j].external_id == e2 {
        let j = choose|j: int|
            0 <= j < pre.len() && (#[trigger] pre[j]).service == s2 && pre[j].external_id == e2;
        assert(post[j] == pre[j]);
        lemma_song_unique(pre, s2, e2, j);
        lemma_song_unique(post, s2, e2, j);
    } else {
        if exists|j: int|
            0 <= j < post.len() && (#[trigger] post[j]).service == s2 && post[j].external_id
                == e2 {
            let j = choose|j: int|
                0 <= j < post.len() && (#[trigger] post[j]).service == s2 && post[j].external_id
                    == e2;
            assert(pre[j] == post[j]);
        }
    }
}

/// For keys other than the new row's, a push changes no lookup.
proof fn lemma_song_lookup_other_push(
    pre: Seq<SongView>,
    post: Seq<SongView>,
    s2: Seq<char>,
    e2: Seq<char>,
)
    requires
        post.len() == pre.len() + 1,
        post == pre.push(post[post.len() - 1]),
        !(post[post.len() - 1].service == s2 && post[post.len() - 1].external_id == e2),
        forall|a: int, b: int|
            0 <= a < b < pre.len() ==> !((#[trigger] pre[a]).service == (
            #[trigger] pre[b]).service && pre[a].external_id == pre[b].external_id),
        forall|a: int|
            0 <= a < pre.len() ==> !((#[trigger] pre[a]).service == post[post.len()
                - 1].service && pre[a].external_id == post[post.len() - 1].external_id),
    ensures
        spec_song_lookup(post, s2, e2) == spec_song_lookup(pre, s2, e2),
{
    if exists|j: int|
        0 <= j < pre.len() && (#[trigger] pre[j]).service == s2 && pre[j].external_id == e2 {
        let j = choose|j: int|
            0 <= j < pre.len() && (#[trigger] pre[j]).service == s2 && pre[j].external_id == e2;
        assert(post[j] == pre[j]);
        lemma_song_unique(pre, s2, e2, j);
        assert forall|a: int, b: int|
            0 <= a < b < post.len() implies !((#[trigger] post[a]).service == (
        #[trigger] post[b]).service && post[a].external_id == post[b].external_id) by {
            if b < post.len() - 1 {
                assert(post[a] == pre[a] && post[b] == pre[b]);
            } else {
                assert(post[a] == pre[a]);
            }
        }
        lemma_song_unique(post, s2, e2, j);
    } else {
        if exists|j: int|
            0 <= j < post.len() && (#[trigger] post[j]).service == s2 && post[j].external_id
                == e2 {
            let j = choose|j: int|
                0 <= j < post.len() && (#[trigger] post[j]).service == s2 && post[j].external_id
                    == e2;
            assert(j < pre.len());
            assert(pre[j] == post[j]);
        }
    }
}

/// When row `i` is the key's one song, the lookup lands on it.
proof fn lemma_song_unique(rows: Seq<SongView>, service: Seq<char>, external_id: Seq<char>, i: int)
    requires
        0 <= i < rows.len(),
        rows[i].service == service,
        rows[i].external_id == external_id,
        forall|a: int, b: int|
            0 <= a < b < rows.len() ==> !((#[trigger] rows[a]).service == (
            #[trigger] rows[b]).service && rows[a].external_id == rows[b].external_id),
    ensures
        spec_song_lookup(rows, service, external_id) == Some(rows[i]),
        spec_song_find(rows, service, external_id) == Some(i),
{
    let j = choose|j: int|
        0 <= j < rows.len() && (#[trigger] rows[j]).service == service && rows[j].external_id
            == external_id;
    if i != j {
        if i < j {
            assert(!(rows[i].service == rows[j].service && rows[i].external_id
                == rows[j].external_id));
        } else {
            assert(!(rows[j].service == rows[i].service && rows[j].external_id
                == rows[i].external_id));
        }
    }
}

} // verus!
