use checkgit::github::{
    calculate_total_stars, checked_total_stars, contribution_matrix, contribution_stats,
    contributions_from_response, decimal_string, handle_status, hi_res_avatar_url,
    next_repos_page, repos_url, require_token, REPOS_PER_PAGE,
    user_url,
};
use checkgit::{
    CheckGitError, ContributionCalendar, ContributionDay, ContributionStats,
    ContributionsCollection, GithubRepoResponse, GraphQLResponse, User, UserData, Week,
};

fn repo(name: &str, stars: u32) -> GithubRepoResponse {
    GithubRepoResponse { name: name.to_string(), stargazers_count: stars }
}

fn week(counts: &[u32]) -> Week {
    Week {
        contribution_days: counts
            .iter()
            .map(|c| ContributionDay { contribution_count: *c })
            .collect(),
    }
}

fn collection(weeks: Vec<Week>) -> ContributionsCollection {
    ContributionsCollection {
        total_commit_contributions: 120,
        total_issue_contributions: 7,
        total_pull_request_contributions: 33,
        total_pull_request_review_contributions: 12,
        total_repositories_with_contributed_commits: 9,
        contribution_calendar: ContributionCalendar { weeks },
    }
}

#[test]
fn total_stars_adds_every_repository() {
    let repos = vec![repo("a", 5), repo("b", 10), repo("c", 0), repo("d", 27)];
    assert_eq!(calculate_total_stars(&repos), 42);
}

#[test]
fn total_stars_of_no_repository_is_zero() {
    assert_eq!(calculate_total_stars(&[]), 0);
}

#[test]
fn checked_total_stars_reports_overflow() {
    assert_eq!(checked_total_stars(&[repo("a", 1), repo("b", 2)]), Some(3));
    assert_eq!(checked_total_stars(&[repo("a", u32::MAX), repo("b", 0)]), Some(u32::MAX));
    assert_eq!(checked_total_stars(&[repo("a", u32::MAX), repo("b", 1)]), None);
}

#[test]
fn success_statuses_are_accepted() {
    assert!(handle_status(200).is_ok());
    assert!(handle_status(201).is_ok());
    assert!(handle_status(299).is_ok());
}

#[test]
fn specific_statuses_have_their_own_errors() {
    assert!(matches!(handle_status(404), Err(CheckGitError::UserNotFound)));
    assert!(matches!(handle_status(403), Err(CheckGitError::RateLimited)));
    assert!(matches!(handle_status(401), Err(CheckGitError::Unauthorized)));
}

#[test]
fn server_errors_are_reported_as_such() {
    assert!(matches!(handle_status(500), Err(CheckGitError::GithubServerError)));
    assert!(matches!(handle_status(503), Err(CheckGitError::GithubServerError)));
    assert!(matches!(handle_status(599), Err(CheckGitError::GithubServerError)));
}

#[test]
fn other_statuses_are_invalid_responses() {
    assert!(matches!(handle_status(100), Err(CheckGitError::InvalidResponse)));
    assert!(matches!(handle_status(302), Err(CheckGitError::InvalidResponse)));
    assert!(matches!(handle_status(400), Err(CheckGitError::InvalidResponse)));
    assert!(matches!(handle_status(422), Err(CheckGitError::InvalidResponse)));
    assert!(matches!(handle_status(600), Err(CheckGitError::InvalidResponse)));
}

#[test]
fn endpoint_addresses() {
    assert_eq!(user_url("torvalds"), "https://api.github.com/users/torvalds");
    assert_eq!(
        repos_url("torvalds", 1),
        "https://api.github.com/users/torvalds/repos?per_page=100&sort=stars&direction=desc&page=1"
    );
    assert_eq!(
        repos_url("octocat", 27),
        "https://api.github.com/users/octocat/repos?per_page=100&sort=stars&direction=desc&page=27"
    );
}

#[test]
fn avatar_size_starts_a_query() {
    assert_eq!(
        hi_res_avatar_url("https://avatars.githubusercontent.com/u/1024025"),
        "https://avatars.githubusercontent.com/u/1024025?s=460"
    );
}

#[test]
fn avatar_size_joins_an_existing_query() {
    assert_eq!(
        hi_res_avatar_url("https://avatars.githubusercontent.com/u/1024025?v=4"),
        "https://avatars.githubusercontent.com/u/1024025?v=4&s=460"
    );
}

#[test]
fn contributions_need_a_token() {
    assert!(matches!(require_token(&None), Err(CheckGitError::Unauthorized)));
    let token = Some("ghp_example".to_string());
    assert_eq!(require_token(&token).ok().map(|t| t.as_str()), Some("ghp_example"));
}

#[test]
fn matrix_has_a_row_per_weekday() {
    let weeks = vec![week(&[1, 2, 3, 4, 5, 6, 7]), week(&[0, 0, 9, 0, 0, 0, 0]), week(&[4, 8])];
    let matrix = contribution_matrix(&weeks);
    assert_eq!(matrix.len(), 7);
    assert_eq!(matrix[0], vec![1, 0, 4]);
    assert_eq!(matrix[1], vec![2, 0, 8]);
    assert_eq!(matrix[2], vec![3, 9, 0]);
    assert_eq!(matrix[6], vec![7, 0, 0]);
}

#[test]
fn matrix_of_no_weeks_has_empty_rows() {
    let matrix = contribution_matrix(&Vec::new());
    assert_eq!(matrix, vec![Vec::<u32>::new(); 7]);
}

#[test]
fn stats_take_the_collection_totals() {
    let stats = contribution_stats(&collection(Vec::new()));
    assert_eq!(
        stats,
        ContributionStats {
            commits: 120,
            pull_requests: 33,
            reviews: 12,
            issues: 7,
            repos_contributed: 9,
        }
    );
}

#[test]
fn unparsed_or_empty_answers_are_invalid() {
    assert!(matches!(contributions_from_response(None), Err(CheckGitError::InvalidResponse)));
    assert!(matches!(
        contributions_from_response(Some(GraphQLResponse { data: None })),
        Err(CheckGitError::InvalidResponse)
    ));
}

#[test]
fn answers_with_data_give_matrix_and_totals() {
    let parsed = GraphQLResponse {
        data: Some(UserData {
            user: User { contributions_collection: collection(vec![week(&[0, 1, 0, 0, 0, 0, 2])]) },
        }),
    };
    let (matrix, stats) = contributions_from_response(Some(parsed)).ok().unwrap();
    assert_eq!(matrix[1], vec![1]);
    assert_eq!(matrix[6], vec![2]);
    assert_eq!(stats.commits, 120);
    assert_eq!(stats.pull_requests, 33);
}

#[test]
fn error_messages() {
    assert_eq!(
        CheckGitError::Network("connection refused".to_string()).message(),
        "Network error: connection refused"
    );
    assert_eq!(CheckGitError::UserNotFound.message(), "GitHub user not found");
    assert_eq!(
        CheckGitError::RateLimited.message(),
        "Rate limited. Add GITHUB_TOKEN for higher limits."
    );
    assert_eq!(CheckGitError::Unauthorized.message(), "Unauthorized. Invalid token.");
    assert_eq!(CheckGitError::GithubServerError.message(), "GitHub server error.");
    assert_eq!(
        CheckGitError::ImageError("bad header".to_string()).message(),
        "Image processing error: bad header"
    );
    assert_eq!(CheckGitError::InvalidResponse.message(), "Invalid API response.");
}

#[test]
fn pages_continue_while_full() {
    assert_eq!(next_repos_page(1, REPOS_PER_PAGE), Some(2));
    assert_eq!(next_repos_page(7, 100), Some(8));
    assert_eq!(next_repos_page(1, 99), None);
    assert_eq!(next_repos_page(3, 0), None);
    assert_eq!(next_repos_page(u32::MAX, 100), None);
}

#[test]
fn numbers_in_decimal() {
    assert_eq!(decimal_string(0), "0");
    assert_eq!(decimal_string(7), "7");
    assert_eq!(decimal_string(10), "10");
    assert_eq!(decimal_string(4096), "4096");
    assert_eq!(decimal_string(u32::MAX), "4294967295");
}

#[test]
fn star_total_ignores_order_and_adds_up() {
    let a = vec![repo("a", 5), repo("b", 10)];
    let b = vec![repo("c", 1), repo("d", 27)];
    let joined = [a.clone(), b.clone()].concat();
    assert_eq!(calculate_total_stars(&joined), calculate_total_stars(&a) + calculate_total_stars(&b));
    let reordered = vec![repo("d", 27), repo("a", 5), repo("c", 1), repo("b", 10)];
    assert_eq!(calculate_total_stars(&reordered), calculate_total_stars(&joined));
}
