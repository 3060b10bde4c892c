//! Plain records exchanged with the services that surround the engine
//! (ledger, identity, social graph and the stub services). They carry data
//! only; the engine never reads them.
use vstd::prelude::*;

verus! {

/// Response envelope of the HTTP layer.
#[derive(Clone, Debug)]
pub struct ApiResponse<T> {
    pub success: bool,
    pub data: Option<T>,
    pub error: Option<String>,
    pub timestamp: i64,
}

/// Page selection of a listing.
#[derive(Clone, Debug)]
pub struct Pagination {
    pub page: Option<i64>,
    pub limit: Option<i64>,
}

#[derive(Clone, Debug)]
pub struct CreateWalletRequest {
    pub user_id: String,
}

#[derive(Clone, Debug)]
pub struct RewardRequest {
    pub user_id: String,
    pub amount: i64,
    pub reason: String,
}

#[derive(Clone, Debug)]
pub struct TransferRequest {
    pub from_user_id: String,
    pub to_user_id: String,
    pub amount: i64,
}

/// One ledger entry.
#[derive(Clone, Debug)]
pub struct Transaction {
    pub id: i64,
    pub from_user_id: Option<String>,
    pub to_user_id: String,
    pub amount: i64,
    pub tx_type: String,
    pub description: String,
    pub created_at: i64,
}

#[derive(Clone, Debug)]
pub struct CreateOrganismRequest {
    pub owner_id: String,
    pub name: String,
}

#[derive(Clone, Debug)]
pub struct CrossoverRequest {
    pub parent1_id: String,
    pub parent2_id: String,
    pub name: String,
}

/// Display colour of an organism.
#[derive(Clone, Copy, Debug, PartialEq, Eq, Structural)]
pub struct ColorRGB {
    pub r: u8,
    pub g: u8,
    pub b: u8,
}

#[derive(Clone, Debug)]
pub struct RegisterRequest {
    pub username: String,
    pub email: String,
    pub password: String,
}

#[derive(Clone, Debug)]
pub struct LoginRequest {
    pub email: String,
    pub password: String,
}

#[derive(Clone, Debug)]
pub struct CreatePostRequest {
    pub content: String,
}

#[derive(Clone, Debug)]
pub struct SearchUsersQuery {
    pub query: String,
}

/// A user as stored.
#[derive(Clone, Debug)]
pub struct UserRow {
    pub id: i64,
    pub username: String,
    pub email: String,
    pub reputation: i64,
    pub level: i64,
    pub bio: Option<String>,
    pub avatar_url: Option<String>,
    pub created_at: i64,
}

/// A user account.
#[derive(Clone, Debug)]
pub struct User {
    pub id: i64,
    pub username: String,
    pub email: String,
    pub reputation: i64,
    pub level: i64,
    pub bio: Option<String>,
    pub avatar_url: Option<String>,
    pub created_at: i64,
}

/// What other users may see of a user.
#[derive(Clone, Debug)]
pub struct UserPublic {
    pub id: i64,
    pub username: String,
    pub reputation: i64,
    pub level: i64,
    pub bio: Option<String>,
    pub avatar_url: Option<String>,
    pub created_at: i64,
}

/// Claims of an access token.
#[derive(Clone, Debug)]
pub struct Claims {
    pub user_id: i64,
    pub username: String,
    pub exp: i64,
}

/// The user an authenticated request acts for.
#[derive(Clone, Debug)]
pub struct AuthUser {
    pub user_id: i64,
    pub username: String,
}

#[derive(Clone, Debug)]
pub struct Post {
    pub id: i64,
    pub user_id: i64,
    pub content: String,
    pub likes: i64,
    pub comments: i64,
    pub created_at: i64,
    pub updated_at: i64,
}

#[derive(Clone, Debug)]
pub struct Follow {
    pub follower_id: i64,
    pub following_id: i64,
    pub created_at: i64,
}

#[derive(Clone, Debug)]
pub struct CoursePurchase {
    pub username: String,
    pub course_title: String,
}

#[derive(Clone, Debug)]
pub struct OracleMessage {
    pub author: String,
    pub content: String,
    pub timestamp: String,
}

#[derive(Clone, Debug)]
pub struct Subscription {
    pub username: String,
    pub blogger_name: String,
}

#[derive(Clone, Debug)]
pub struct Message {
    pub id: i64,
    pub username: String,
    pub content: String,
    pub timestamp: String,
}

/// Kind of a global event.
#[derive(Clone, Copy, Debug, PartialEq, Eq, Structural)]
pub enum EventType {
    QuantumStorm,
    EconomicBoom,
    NoosphereSilence,
    Normal,
}

#[derive(Clone, Debug)]
pub struct InteractionRequest {
    pub username: String,
    pub target: String,
}

#[derive(Clone, Debug)]
pub struct Blogger {
    pub name: String,
    pub subscribers: u64,
    pub category: String,
}

#[derive(Clone, Debug)]
pub struct MessageRequest {
    pub username: String,
    pub content: String,
}

#[derive(Clone, Debug)]
pub struct AuthRequest {
    pub username: String,
    pub password: String,
}

#[derive(Clone, Debug)]
pub struct ActivityRequest {
    pub username: String,
    pub activity_type: String,
    pub human_token: String,
}

#[derive(Clone, Debug)]
pub struct DeployRequest {
    pub location_id: String,
    pub organism_id: u64,
}

} // verus!
