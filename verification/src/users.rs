//! Candidate profiles from the external directory, modelled as plain
//! values, and the authentication decision taken over them. Fetching the
//! profiles is the shell's job; everything decided about them is verified
//! here.
use vstd::prelude::*;

verus! {

/// A directory user as the broadcast surface sees one.
#[derive(Debug)]
pub struct User {
    pub telegram_id: i64,
    pub name: String,
    pub telegram_nickname: Option<String>,
    pub phone_number: Option<String>,
    pub full_name: Option<String>,
}

/// The profile the external directory serves for one recipient.
#[derive(Debug)]
pub struct UserProfile {
    pub telegram_id: i64,
    pub telegram_nickname: Option<String>,
    pub vk_nickname: Option<String>,
    pub status: Option<i32>,
    pub full_name: Option<String>,
    pub phone_number: Option<String>,
    pub live_metro_station: Option<Vec<i32>>,
    pub study_metro_station: Option<Vec<i32>>,
    pub year_of_admission: Option<i32>,
    pub has_driver_license: Option<i32>,
    pub date_of_birth: Option<String>,
    pub has_printer: Option<i32>,
    pub can_host_night: Option<bool>,
}

/// The filled-in candidate questionnaire the directory serves.
#[derive(Debug)]
pub struct UserSurvey {
    pub telegram_id: i64,
    pub username: String,
    pub full_name: String,
    pub faculty: String,
    pub group: String,
    pub phone: String,
    pub email: Option<String>,
    pub birth_date: Option<String>,
    pub education_level: Option<String>,
    pub experience: Option<String>,
    pub skills: Option<Vec<String>>,
    pub interests: Option<Vec<String>>,
    pub completed_at: String,
}

/// The identity the messenger asserts for a caller.
#[derive(Debug)]
pub struct TelegramAuth {
    pub id: i64,
    pub first_name: String,
    pub last_name: Option<String>,
    pub username: Option<String>,
    pub photo_url: Option<String>,
    pub auth_date: i64,
    pub hash: String,
}

/// The directory's envelope around a profile.
#[derive(Debug)]
pub struct ExternalUserResponse {
    pub user_profile: UserProfile,
}

/// What authentication hands back to the caller.
#[derive(Debug)]
pub struct AuthResponse {
    pub success: bool,
    pub message: String,
    pub user_profile: Option<UserProfile>,
    pub user_role: Option<i32>,
}

/// An operator request to grant a recipient a role.
pub struct CreateUserRequest {
    pub telegram_id: i64,
    pub role: i32,
}

/// An operator request to change a recipient's role.
pub struct UpdateUserRequest {
    pub role: i32,
}

/// A recipient the booking bot accepts commands from.
#[derive(Clone, Copy, Debug, PartialEq, Eq, Structural)]
pub struct AllowedUser {
    pub telegram_id: i64,
}

/// The name a profile is shown under: the full name when the candidate
/// gave one, else the messenger nickname; with neither, the caller falls
/// back to a numbered label.
pub fn display_name(profile: &UserProfile) -> (r: Option<String>)
    ensures
        profile.full_name is Some ==> r == profile.full_name,
        profile.full_name is None ==> r == profile.telegram_nickname,
{
    match &profile.full_name {
        Some(n) => Some(n.clone()),
        None => match &profile.telegram_nickname {
            Some(n) => Some(n.clone()),
            None => None,
        },
    }
}

/// The authentication decision over a directory lookup: a caller whose
/// profile the directory serves is authenticated and carries their stored
/// role; anyone else is turned away.
pub fn authenticate_user(profile: Option<UserProfile>, role: Option<i32>) -> (r: AuthResponse)
    ensures
        r.success <==> profile is Some,
        r.user_profile is Some <==> profile is Some,
        r.success ==> r.user_role == role,
        !r.success ==> r.user_role is None,
        r.success ==> r.message@ == "authenticated"@,
        !r.success ==> r.message@ == "user not found"@,
{
    match profile {
        Some(p) => AuthResponse {
            success: true,
            message: from_literal("authenticated"),
            user_profile: Some(p),
            user_role: role,
        },
        None => AuthResponse {
            success: false,
            message: from_literal("user not found"),
            user_profile: None,
            user_role: None,
        },
    }
}

fn from_literal(s: &str) -> (r: String)
    ensures
        r@ == s@,
{
    String::from_str(s)
}

} // verus!
