//! Canonical track identities.
//!
//! A track seen on one service is identified by its service tag and external
//! id; when the external id is missing the identity falls back to a
//! case-folded, whitespace-collapsed (artist, title, duration) triple.  The
//! canonical key is the equality class the sync planner diffs on.

use vstd::prelude::*;

verus! {

/// A song as seen on one service.
pub struct TrackIdentity {
    pub service: String,
    pub external_id: Option<String>,
    pub title: String,
    pub artist: Option<String>,
    pub album: Option<String>,
    pub duration_ms: Option<u32>,
}

/// Mathematical model of a `TrackIdentity`.
pub struct TrackIdentityView {
    pub service: Seq<char>,
    pub external_id: Option<Seq<char>>,
    pub title: Seq<char>,
    pub artist: Option<Seq<char>>,
    pub album: Option<Seq<char>>,
    pub duration_ms: Option<u32>,
}

impl View for TrackIdentity {
    type V = TrackIdentityView;

    open spec fn view(&self) -> TrackIdentityView {
        TrackIdentityView {
            service: self.service@,
            external_id: match self.external_id {
                Some(ref s) => Some(s@),
                None => None,
            },
            title: self.title@,
            artist: match self.artist {
                Some(ref s) => Some(s@),
                None => None,
            },
            album: match self.album {
                Some(ref s) => Some(s@),
                None => None,
            },
            duration_ms: self.duration_ms,
        }
    }
}

/// The equality class a track is diffed on.
pub enum TrackKey {
    /// The track carries an external id: (service, id) is unique.
    ById { service: String, id: String },
    /// No external id: a normalized metadata triple stands in.
    ByMeta { artist: String, title: String, duration_s: u32 },
}

/// Mathematical model of a `TrackKey`.
pub enum TrackKeyView {
    ById { service: Seq<char>, id: Seq<char> },
    ByMeta { artist: Seq<char>, title: Seq<char>, duration_s: u32 },
}

impl View for TrackKey {
    type V = TrackKeyView;

    open spec fn view(&self) -> TrackKeyView {
        match self {
            TrackKey::ById { service, id } => TrackKeyView::ById { service: service@, id: id@ },
            TrackKey::ByMeta { artist, title, duration_s } => TrackKeyView::ByMeta {
                artist: artist@,
                title: title@,
                duration_s: *duration_s,
            },
        }
    }
}

impl TrackKey {
    /// Decide whether two keys name the same equality class.
    pub fn matches(&self, other: &TrackKey) -> (r: bool)
        ensures
            r == (self@ == other@),
    {
        match (self, other) {
            (
                TrackKey::ById { service: s1, id: i1 },
                TrackKey::ById { service: s2, id: i2 },
            ) => *s1 == *s2 && *i1 == *i2,
            (
                TrackKey::ByMeta { artist: a1, title: t1, duration_s: d1 },
                TrackKey::ByMeta { artist: a2, title: t2, duration_s: d2 },
            ) => *a1 == *a2 && *t1 == *t2 && *d1 == *d2,
            _ => false,
        }
    }

    /// Clone a key; the copy models the same equality class.
    pub fn duplicate(&self) -> (r: TrackKey)
        ensures
            r@ == self@,
    {
        match self {
            TrackKey::ById { service, id } => TrackKey::ById {
                service: clone_string(service),
                id: clone_string(id),
            },
            TrackKey::ByMeta { artist, title, duration_s } => TrackKey::ByMeta {
                artist: clone_string(artist),
                title: clone_string(title),
                duration_s: *duration_s,
            },
        }
    }
}

/// Clone a `String`; the copy has the same characters.
pub fn clone_string(s: &String) -> (r: String)
    ensures
        r@ == s@,
{
    s.clone()
}

/// True of the characters the normalizer treats as blank.
pub open spec fn spec_is_space(c: char) -> bool {
    c == ' ' || c == '\t' || c == '\n' || c == '\r'
}

/// ASCII case folding: upper-case letters map to lower case.  Folding is
/// deliberately ASCII-only: metadata keys beyond ASCII compare by their
/// exact characters, which errs toward treating near-duplicates as
/// distinct rather than conflating them.
pub open spec fn spec_fold_char(c: char) -> char {
    if 'A' <= c && c <= 'Z' {
        ((c as u32) + 32) as char
    } else {
        c
    }
}

/// Normalized text from position `i` on, given whether a word was already
/// emitted (`started`) and whether blank space was seen since (`pending`).
pub open spec fn spec_norm_from(s: Seq<char>, i: int, started: bool, pending: bool) -> Seq<char>
    decreases s.len() - i,
{
    if i < 0 || i >= s.len() {
        Seq::empty()
    } else if spec_is_space(s[i]) {
        spec_norm_from(s, i + 1, started, true)
    } else {
        let rest = spec_norm_from(s, i + 1, true, false);
        if started && pending {
            seq![' ', spec_fold_char(s[i])] + rest
        } else {
            seq![spec_fold_char(s[i])] + rest
        }
    }
}

/// Case-folded, whitespace-collapsed form of a text: words are separated by
/// a single space, outer blank space is dropped, letters are folded to lower
/// case.
pub open spec fn spec_normalize(s: Seq<char>) -> Seq<char> {
    spec_norm_from(s, 0, false, false)
}

/// Fold one character to lower case.
fn fold_char(c: char) -> (r: char)
    ensures
        r == spec_fold_char(c),
{
    if 'A' <= c && c <= 'Z' {
        (((c as u8) + 32)) as char
    } else {
        c
    }
}

/// Decide whether a character counts as blank space.
fn is_space(c: char) -> (r: bool)
    ensures
        r == spec_is_space(c),
{
    c == ' ' || c == '\t' || c == '\n' || c == '\r'
}

/// Normalize a text for metadata comparison: case-fold (ASCII letters
/// only), collapse every run of blank space to one space, and trim the
/// ends.
pub fn normalize(s: &str) -> (r: String)
    ensures
        r@ == spec_normalize(s@),
{
    let n = s.unicode_len();
    let mut out = String::new();
    let mut started = false;
    let mut pending = false;
    let mut i: usize = 0;
    while i < n
        invariant
            n == s@.len(),
            i <= n,
            spec_normalize(s@) == out@ + spec_norm_from(s@, i as int, started, pending),
            !started ==> out@.len() == 0,
        decreases n - i,
    {
        let c = s.get_char(i);
        if is_space(c) {
            pending = true;
        } else {
            if started && pending {
                out.push(' ');
            }
            out.push(fold_char(c));
            started = true;
            pending = false;
        }
        i += 1;
    }
    out
}

/// Duration in whole seconds, rounded to the nearest second.
pub open spec fn spec_round_to_seconds(ms: u32) -> u32 {
    ((ms + 500) / 1000) as u32
}

/// Round a duration in milliseconds to the nearest second.
pub fn round_to_seconds(ms: u32) -> (r: u32)
    ensures
        r == spec_round_to_seconds(ms),
{
    (((ms as u64) + 500) / 1000) as u32
}

/// The canonical key of a track: its (service, external id) pair when the
/// id is present, else the normalized (artist, title, duration) triple.
pub open spec fn spec_canonical_key(t: TrackIdentityView) -> TrackKeyView {
    match t.external_id {
        Some(id) => TrackKeyView::ById { service: t.service, id: id },
        None => TrackKeyView::ByMeta {
            artist: spec_normalize(match t.artist {
                Some(a) => a,
                None => Seq::empty(),
            }),
            title: spec_normalize(t.title),
            duration_s: spec_round_to_seconds(match t.duration_ms {
                Some(d) => d,
                None => 0,
            }),
        },
    }
}

/// Compute the canonical key of a track.
pub fn canonical_key(t: &TrackIdentity) -> (r: TrackKey)
    ensures
        r@ == spec_canonical_key(t@),
{
    match &t.external_id {
        Some(id) => TrackKey::ById {
            service: clone_string(&t.service),
            id: clone_string(id),
        },
        None => {
            let artist = match &t.artist {
                Some(a) => normalize(a.as_str()),
                None => String::new(),
            };
            let title = normalize(t.title.as_str());
            let duration_s = round_to_seconds(match t.duration_ms {
                Some(d) => d,
                None => 0,
            });
            proof {
                assert(spec_normalize(Seq::<char>::empty()) == Seq::<char>::empty());
            }
            TrackKey::ByMeta { artist, title, duration_s }
        },
    }
}

} // verus!
