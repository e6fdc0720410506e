//! Plain data that the GitHub REST and GraphQL endpoints answer with,
//! and the statistics the library derives from it.
use vstd::prelude::*;

verus! {

/// The fields of `GET /users/{login}` that the profile shows.
#[derive(Debug, Clone)]
pub struct GithubUserResponse {
    pub name: Option<String>,
    pub followers: u32,
    pub following: u32,
    pub avatar_url: String,
    pub bio: Option<String>,
    pub login: String,
    pub public_repos: u32,
}

/// One entry of `GET /users/{login}/repos`.
#[derive(Debug, Clone)]
pub struct GithubRepoResponse {
    pub name: String,
    pub stargazers_count: u32,
}

/// The envelope of a GraphQL answer; `data` is absent when the query failed.
#[derive(Debug)]
pub struct GraphQLResponse {
    pub data: Option<UserData>,
}

#[derive(Debug)]
pub struct UserData {
    pub user: User,
}

#[derive(Debug)]
pub struct User {
    pub contributions_collection: ContributionsCollection,
}

#[derive(Debug)]
pub struct ContributionsCollection {
    pub total_commit_contributions: u32,
    pub total_issue_contributions: u32,
    pub total_pull_request_contributions: u32,
    pub total_pull_request_review_contributions: u32,
    pub total_repositories_with_contributed_commits: u32,
    pub contribution_calendar: ContributionCalendar,
}

#[derive(Debug)]
pub struct ContributionCalendar {
    pub weeks: Vec<Week>,
}

/// One column of the calendar: its days in order, Sunday first.
#[derive(Debug)]
pub struct Week {
    pub contribution_days: Vec<ContributionDay>,
}

#[derive(Debug)]
pub struct ContributionDay {
    pub contribution_count: u32,
}

/// The yearly totals shown beside the profile.
#[derive(Debug, Clone, Copy, PartialEq, Eq, Structural)]
pub struct ContributionStats {
    pub commits: u32,
    pub pull_requests: u32,
    pub reviews: u32,
    pub issues: u32,
    pub repos_contributed: u32,
}

} // verus!
