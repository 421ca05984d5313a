pub mod extract;
pub mod json;
pub mod response;

pub use extract::FetchOutcome;
pub use json::from_json;
pub use json::to_json;
pub use extract::SaunadgeError;
pub use extract::badge;
pub use extract::extract_sakatsu;
pub use extract::get_sakatsu;
pub use extract::profile_url;

pub use response::BadgeResponse;
pub use response::compose_error;
pub use response::compose_success;
pub use response::static_fields_ok;
pub use response::status_code;
