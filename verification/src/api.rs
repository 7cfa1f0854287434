//! The request and response shapes of the HTTP layer.
//!
//! The handlers themselves live outside; these are the plain values they
//! exchange with the core.  Timestamps travel as seconds since the Unix
//! epoch.

use vstd::prelude::*;

use crate::sync_service::SyncPreviewResponse as PreviewLists;
use crate::engine::SyncCounts;

verus! {

/// A login posted as JSON.
pub struct JsonLoginRequest {
    pub username: String,
    pub password: String,
}

/// A registration posted as JSON.
pub struct JsonRegisterRequest {
    pub username: String,
    pub password: String,
}

/// The reply to a logout.
pub struct JsonLogoutResponse {
    pub success: bool,
    pub message: String,
}

/// A JSON error reply.
pub struct JsonErrorResponse {
    pub success: bool,
    pub error: String,
    pub error_code: Option<String>,
}

/// Query parameters of the sync-history endpoint.
pub struct SyncHistoryParams {
    pub limit: Option<i64>,
    pub watcher_id: Option<i64>,
}

/// The query half of the OAuth callback.
pub struct SpotifyAuthCallbackQuery {
    pub code: Option<String>,
    pub state: Option<String>,
    pub error: Option<String>,
}

/// The reply that carries an authorization URL.
pub struct SpotifyAuthUrlResponse {
    pub success: bool,
    pub auth_url: Option<String>,
    pub error: Option<String>,
}

/// The reply that reports connection status.
pub struct SpotifyAuthStatusResponse {
    pub success: bool,
    pub authenticated: bool,
    pub user_profile: Option<SpotifyUserProfile>,
    pub error: Option<String>,
}

/// A connected account's profile, as shown to its owner.
pub struct SpotifyUserProfile {
    pub id: String,
    pub display_name: Option<String>,
    pub email: Option<String>,
    pub followers: u32,
    pub premium: bool,
}

/// A plain error reply.
pub struct ApiErrorResponse {
    pub success: bool,
    pub error: String,
}

/// A plain success reply.
pub struct ApiSuccessResponse {
    pub success: bool,
    pub message: String,
}

/// One playlist, as listed.
pub struct PlaylistResponse {
    pub id: String,
    pub name: String,
    pub description: Option<String>,
    pub track_count: u32,
    pub is_public: bool,
    pub owner_id: String,
    pub owner_display_name: Option<String>,
    pub image_url: Option<String>,
    pub external_url: String,
}

/// The reply listing playlists.
pub struct PlaylistsResponse {
    pub success: bool,
    pub playlists: Vec<PlaylistResponse>,
    pub error: Option<String>,
}

/// One track of a playlist, as listed.
pub struct TrackResponse {
    pub id: Option<String>,
    pub name: String,
    pub artists: Vec<String>,
    pub album: Option<String>,
    pub duration_ms: Option<u32>,
    pub external_url: Option<String>,
    pub is_playable: bool,
    pub added_at: Option<String>,
}

/// The reply listing a playlist's tracks.
pub struct PlaylistTracksResponse {
    pub success: bool,
    pub tracks: Vec<TrackResponse>,
    pub total: usize,
    pub error: Option<String>,
}

/// A request to create a playlist.
pub struct CreatePlaylistRequest {
    pub name: String,
    pub description: Option<String>,
    pub public: Option<bool>,
}

/// The reply describing one playlist.
pub struct PlaylistDetailResponse {
    pub success: bool,
    pub playlist: Option<PlaylistResponse>,
    pub error: Option<String>,
}

/// A request to preview a sync.
pub struct SyncPreviewRequest {
    pub source_playlist_id: String,
    pub target_service: String,
    pub target_playlist_id: Option<String>,
}

/// A request to run a watcher's sync now.
pub struct SyncExecuteRequest {
    pub watcher_id: i64,
}

/// The reply wrapping a preview.
pub struct SyncPreviewResponse {
    pub success: bool,
    pub preview: Option<PreviewLists>,
    pub error: Option<String>,
}

/// The reply reporting a sync's status.
pub struct SyncStatusResponse {
    pub success: bool,
    pub status: Option<String>,
    pub counts: Option<SyncCounts>,
    pub error: Option<String>,
}

/// A request to change one's profile.
pub struct UpdateProfileRequest {
    pub username: Option<String>,
}

/// One service connection's status, as shown to its owner.
pub struct ServiceConnectionStatus {
    pub service: String,
    pub is_connected: bool,
    pub expires_at: Option<i64>,
    pub last_successful_auth: Option<i64>,
    pub requires_reauth: bool,
}

/// The reply listing service connections.
pub struct ServiceConnectionsResponse {
    pub connections: Vec<ServiceConnectionStatus>,
}

/// A user's profile, as shown to them.
pub struct UserProfileResponse {
    pub id: i64,
    pub username: String,
    pub created_at: Option<i64>,
}

/// A connected account as the provider describes it.
pub struct SpotifyUser {
    pub id: String,
    pub display_name: Option<String>,
    pub email: Option<String>,
    pub followers: Option<SpotifyFollowers>,
    pub images: Vec<SpotifyImage>,
}

/// A follower count.
pub struct SpotifyFollowers {
    pub total: i32,
}

/// An image by URL with optional dimensions.
pub struct SpotifyImage {
    pub url: String,
    pub height: Option<i32>,
    pub width: Option<i32>,
}

/// The token reply of the OAuth token endpoint.
pub struct TokenResponse {
    pub access_token: String,
    pub token_type: String,
    pub scope: String,
    pub expires_in: i32,
    pub refresh_token: Option<String>,
}

/// A request to start connecting a service.
pub struct SpotifyConnectionRequest {
    pub redirect_uri: String,
}

/// The reply that starts a connection.
pub struct SpotifyConnectionResponse {
    pub authorization_url: String,
    pub state: String,
}

/// The callback's payload for the token exchange.
pub struct SpotifyCallbackRequest {
    pub code: String,
    pub state: String,
}

/// One watcher, as listed to its owner.
pub struct WatcherResponse {
    pub id: i64,
    pub name: String,
    pub source_service: String,
    pub source_playlist_id: String,
    pub target_service: String,
    pub target_playlist_id: Option<String>,
    pub is_active: bool,
    pub sync_frequency: i32,
    pub last_sync_at: Option<i64>,
    pub created_at: i64,
}

/// One journal row, as listed to a watcher's owner.
pub struct SyncOperationResponse {
    pub id: i64,
    pub operation_type: String,
    pub status: String,
    pub songs_added: usize,
    pub songs_removed: usize,
    pub songs_failed: usize,
    pub error_message: Option<String>,
    pub started_at: i64,
    pub completed_at: Option<i64>,
}

} // verus!
