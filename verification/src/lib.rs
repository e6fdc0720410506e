//! Core of a terminal viewer of GitHub profiles: the interpretation of the
//! API's answers (status codes, repositories, the contribution calendar),
//! the assembly of a profile, the avatar's framing, and the figures shown
//! in the contribution heatmap.
pub mod avatar;
pub mod display;
pub mod error;
pub mod github;
pub mod models;
pub mod picture;
pub mod profile;

pub use crate::error::CheckGitError;
pub use crate::github::calculate_total_stars;
pub use crate::models::{
    ContributionCalendar, ContributionDay, ContributionStats, ContributionsCollection,
    GithubRepoResponse, GithubUserResponse, GraphQLResponse, User, UserData, Week,
};
pub use crate::profile::UserProfile;
