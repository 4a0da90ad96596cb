//! Plain data carried between the library and its callers: users, projects,
//! files, credentials, token claims, and the shapes exchanged with the
//! embedding provider. Embedding components are fixed-point integers, as
//! everywhere in this library.

use vstd::prelude::*;

verus! {

/// A project as callers see it.
#[derive(Debug)]
pub struct ProjectDTO {
    /// Filled during database operations.
    pub id: Option<i64>,
    pub name: String,
    pub description: String,
}

/// One project of a user, with the user's permission on it.
#[derive(Debug)]
pub struct UserProjectDTO {
    pub project: ProjectDTO,
    pub permission: String,
}

/// A user as callers see it, with the projects the user can reach.
#[derive(Debug)]
pub struct UserDTO {
    /// Filled during database operations.
    pub id: Option<u32>,
    pub username: String,
    pub projects: Vec<UserProjectDTO>,
}

/// The claims carried in a session token.
#[derive(Debug)]
#[allow(non_snake_case)]
pub struct Claims {
    pub userID: i64,
    pub sub: String,
    /// Expiry, as seconds since the epoch.
    pub exp: usize,
}

/// A login request.
#[derive(Debug)]
pub struct Credentials {
    pub username: String,
    pub password: String,
}

/// A password-change request.
#[derive(Debug)]
pub struct ResetPasswordCredentials {
    pub username: String,
    pub password: String,
    pub new_password: String,
}

/// A freshly issued session token.
#[derive(Debug)]
pub struct TokenResponse {
    pub token: String,
}

/// A user row.
#[derive(Debug)]
pub struct User {
    /// Filled during database operations.
    pub id: Option<u32>,
    pub username: String,
    pub password: String,
}

/// A user's membership in a project.
#[derive(Debug)]
pub struct UserProject {
    pub user_id: i64,
    pub project_id: i64,
    pub permission_type: String,
}

/// A project row.
#[derive(Debug)]
pub struct Project {
    /// Filled during database operations.
    pub id: Option<i64>,
    pub name: String,
    pub description: String,
}

/// An uploaded file's row: where it lies and which project owns it.
#[derive(Debug)]
pub struct File {
    pub id: i64,
    pub name: String,
    pub path: String,
    pub project_id: i64,
}

/// One persisted embedding of a file, as served to callers.
#[derive(Debug)]
pub struct EmbeddingEntry {
    pub start_byte: i64,
    pub end_byte: i64,
    pub embedding: Vec<i64>,
}

/// One embedding in a provider response.
#[derive(Debug)]
pub struct Embedding {
    pub embedding: Vec<i64>,
    pub index: i32,
    pub object: String,
}

/// The provider's usage counters.
#[derive(Debug)]
pub struct Usage {
    pub prompt_tokens: i32,
    pub total_tokens: i32,
}

/// A provider embeddings response.
#[derive(Debug)]
pub struct Response {
    pub data: Vec<Embedding>,
    pub model: String,
    pub object: String,
    pub usage: Usage,
}

/// A provider embeddings request.
#[derive(Debug)]
pub struct Request {
    pub input: String,
    pub model: String,
}

/// A similarity query over a project's embeddings.
#[derive(Debug)]
#[allow(non_camel_case_types)]
pub struct similiar_text_request {
    pub text: String,
}

} // verus!
