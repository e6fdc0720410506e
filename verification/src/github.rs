//! What the library makes of the GitHub API: which statuses are errors,
//! where to ask, and what the answers add up to.
use vstd::prelude::*;
use vstd::string::*;

use crate::error::CheckGitError;
use crate::models::{
    ContributionStats, ContributionsCollection, GithubRepoResponse, GraphQLResponse, Week,
};

verus! {

/// The sum of the stargazer counts of `repos`, as an unbounded integer.
pub open spec fn stars_sum(repos: Seq<GithubRepoResponse>) -> int
    decreases repos.len(),
{
    if repos.len() == 0 {
        0
    } else {
        stars_sum(repos.drop_last()) + repos.last().stargazers_count
    }
}

/// Adding stars never makes the sum smaller than any prefix's sum.
proof fn lemma_stars_sum_prefix_le(repos: Seq<GithubRepoResponse>, i: int)
    requires
        0 <= i <= repos.len(),
    ensures
        stars_sum(repos.take(i)) <= stars_sum(repos),
    decreases repos.len(),
{
    if i < repos.len() {
        assert(repos.drop_last().take(i) =~= repos.take(i));
        lemma_stars_sum_prefix_le(repos.drop_last(), i);
    } else {
        assert(repos.take(i) =~= repos);
    }
}

/// Taking out one repository takes its stars out of the sum.
proof fn lemma_stars_sum_remove(repos: Seq<GithubRepoResponse>, i: int)
    requires
        0 <= i < repos.len(),
    ensures
        stars_sum(repos) == stars_sum(repos.remove(i)) + repos[i].stargazers_count,
    decreases repos.len(),
{
    if i == repos.len() - 1 {
        assert(repos.remove(i) =~= repos.drop_last());
    } else {
        lemma_stars_sum_remove(repos.drop_last(), i);
        assert(repos.remove(i).drop_last() =~= repos.drop_last().remove(i));
        assert(repos.remove(i).last() == repos.last());
    }
}

/// The star total does not depend on the order of the repositories: lists
/// holding the same repositories, each as often, have the same total.
pub proof fn lemma_stars_sum_permutation(repos1: Seq<GithubRepoResponse>, repos2: Seq<GithubRepoResponse>)
    requires
        repos1.to_multiset() == repos2.to_multiset(),
    ensures
        stars_sum(repos1) == stars_sum(repos2),
    decreases repos1.len(),
{
    broadcast use vstd::seq_lib::group_to_multiset_ensures;

    if repos1.len() == 0 {
        assert(repos2.to_multiset().len() == 0);
    } else {
        let x = repos1.last();
        assert(repos1 =~= repos1.drop_last().push(x));
        assert(repos1.to_multiset() =~= repos1.drop_last().to_multiset().insert(x));
        assert(repos2.to_multiset().count(x) > 0);
        assert(repos2.contains(x));
        let i = choose|i: int| 0 <= i < repos2.len() && repos2[i] == x;
        assert(repos2.remove(i).to_multiset() =~= repos2.to_multiset().remove(x));
        assert(repos1.drop_last().to_multiset() =~= repos2.remove(i).to_multiset());
        lemma_stars_sum_permutation(repos1.drop_last(), repos2.remove(i));
        lemma_stars_sum_remove(repos2, i);
    }
}

/// The star total of two lists joined is the sum of their totals; no
/// repositories have no stars.
pub proof fn lemma_stars_sum_concat(repos1: Seq<GithubRepoResponse>, repos2: Seq<GithubRepoResponse>)
    ensures
        stars_sum(repos1 + repos2) == stars_sum(repos1) + stars_sum(repos2),
        stars_sum(Seq::<GithubRepoResponse>::empty()) == 0,
        forall|r: GithubRepoResponse| #[trigger] stars_sum(seq![r]) == r.stargazers_count,
    decreases repos2.len(),
{
    assert forall|r: GithubRepoResponse| #[trigger] stars_sum(seq![r]) == r.stargazers_count by {
        assert(seq![r].drop_last() =~= Seq::<GithubRepoResponse>::empty());
        assert(stars_sum(Seq::<GithubRepoResponse>::empty()) == 0);
        assert(seq![r].last() == r);
    }
    if repos2.len() == 0 {
        assert(repos1 + repos2 =~= repos1);
    } else {
        lemma_stars_sum_concat(repos1, repos2.drop_last());
        assert((repos1 + repos2).drop_last() =~= repos1 + repos2.drop_last());
    }
}

/// The total number of stars over all repositories.
pub fn calculate_total_stars(repos: &[GithubRepoResponse]) -> (total: u32)
    requires
        stars_sum(repos@) <= u32::MAX,
    ensures
        total == stars_sum(repos@),
{
    let mut total: u32 = 0;
    let mut i: usize = 0;
    while i < repos.len()
        invariant
            0 <= i <= repos@.len(),
            stars_sum(repos@) <= u32::MAX,
            total == stars_sum(repos@.take(i as int)),
        decreases repos@.len() - i,
    {
        assert(repos@.take(i + 1).drop_last() =~= repos@.take(i as int));
        proof {
            lemma_stars_sum_prefix_le(repos@, i + 1);
        }
        total = total + repos[i].stargazers_count;
        i = i + 1;
    }
    assert(repos@.take(i as int) =~= repos@);
    total
}

/// The total number of stars, or `None` where it does not fit in a `u32`.
pub fn checked_total_stars(repos: &[GithubRepoResponse]) -> (total: Option<u32>)
    ensures
        match total {
            Some(t) => t == stars_sum(repos@),
            None => stars_sum(repos@) > u32::MAX,
        },
{
    let mut total: u32 = 0;
    let mut i: usize = 0;
    while i < repos.len()
        invariant
            0 <= i <= repos@.len(),
            total == stars_sum(repos@.take(i as int)),
        decreases repos@.len() - i,
    {
        assert(repos@.take(i + 1).drop_last() =~= repos@.take(i as int));
        match total.checked_add(repos[i].stargazers_count) {
            Some(t) => {
                total = t;
            },
            None => {
                proof {
                    lemma_stars_sum_prefix_le(repos@, i + 1);
                }
                return None;
            },
        }
        i = i + 1;
    }
    assert(repos@.take(i as int) =~= repos@);
    Some(total)
}

/// HTTP status codes that the API answers are judged by.
pub const STATUS_UNAUTHORIZED: u16 = 401;
pub const STATUS_FORBIDDEN: u16 = 403;
pub const STATUS_NOT_FOUND: u16 = 404;

/// A 2xx status.
pub open spec fn is_success_status(status: u16) -> bool {
    200 <= status < 300
}

/// A 5xx status.
pub open spec fn is_server_error_status(status: u16) -> bool {
    500 <= status < 600
}

/// The verdict on an answer with this status: the error it stands for, if any.
/// The specific codes are judged first, then the server errors, then
/// everything that is not a success.
pub open spec fn status_verdict(status: u16) -> Result<(), CheckGitError> {
    if status == STATUS_NOT_FOUND {
        Err(CheckGitError::UserNotFound)
    } else if status == STATUS_FORBIDDEN {
        Err(CheckGitError::RateLimited)
    } else if status == STATUS_UNAUTHORIZED {
        Err(CheckGitError::Unauthorized)
    } else if is_server_error_status(status) {
        Err(CheckGitError::GithubServerError)
    } else if !is_success_status(status) {
        Err(CheckGitError::InvalidResponse)
    } else {
        Ok(())
    }
}

/// Judges the status of an answer before its body is read.
pub fn handle_status(status: u16) -> (verdict: Result<(), CheckGitError>)
    ensures
        verdict == status_verdict(status),
{
    if status == STATUS_NOT_FOUND {
        Err(CheckGitError::UserNotFound)
    } else if status == STATUS_FORBIDDEN {
        Err(CheckGitError::RateLimited)
    } else if status == STATUS_UNAUTHORIZED {
        Err(CheckGitError::Unauthorized)
    } else if 500 <= status && status < 600 {
        Err(CheckGitError::GithubServerError)
    } else if !(200 <= status && status < 300) {
        Err(CheckGitError::InvalidResponse)
    } else {
        Ok(())
    }
}

/// An answer is accepted exactly when its status is a success (2xx); every
/// other status is refused with an error.
pub proof fn lemma_status_accepted_iff_success(status: u16)
    ensures
        status_verdict(status) is Ok <==> is_success_status(status),
{
}

/// Which error a refused status brings: 404 means the user does not exist,
/// 403 that the rate limit was hit, 401 that the token was refused, any
/// other status from 500 to 599 a fault at GitHub, and any other status
/// outside 200 to 299 an answer that cannot be used.
pub proof fn lemma_status_errors(status: u16)
    ensures
        status == 404 ==> status_verdict(status) == Err::<(), CheckGitError>(CheckGitError::UserNotFound),
        status == 403 ==> status_verdict(status) == Err::<(), CheckGitError>(CheckGitError::RateLimited),
        status == 401 ==> status_verdict(status) == Err::<(), CheckGitError>(CheckGitError::Unauthorized),
        500 <= status <= 599 ==> status_verdict(status) == Err::<(), CheckGitError>(
            CheckGitError::GithubServerError,
        ),
        status != 401 && status != 403 && status != 404 && !(500 <= status <= 599) && !(200
            <= status <= 299) ==> status_verdict(status) == Err::<(), CheckGitError>(
            CheckGitError::InvalidResponse,
        ),
        200 <= status <= 299 ==> status_verdict(status) == Ok::<(), CheckGitError>(()),
{
}

/// The REST endpoint of a user's profile.
pub open spec fn user_url_spec(username: Seq<char>) -> Seq<char> {
    "https://api.github.com/users/"@ + username
}

/// How many repositories one page of the repositories endpoint holds.
pub const REPOS_PER_PAGE: usize = 100;

/// The decimal digit `d` (below ten).
pub open spec fn digit_char(d: nat) -> char {
    if d == 0 {
        '0'
    } else if d == 1 {
        '1'
    } else if d == 2 {
        '2'
    } else if d == 3 {
        '3'
    } else if d == 4 {
        '4'
    } else if d == 5 {
        '5'
    } else if d == 6 {
        '6'
    } else if d == 7 {
        '7'
    } else if d == 8 {
        '8'
    } else {
        '9'
    }
}

/// `n` written in decimal, without leading zeros.
pub open spec fn decimal_spec(n: nat) -> Seq<char>
    decreases n,
{
    if n < 10 {
        seq![digit_char(n)]
    } else {
        decimal_spec(n / 10) + seq![digit_char(n % 10)]
    }
}

/// The number that decimal digits stand for.
pub open spec fn decimal_value(digits: Seq<char>) -> int
    decreases digits.len(),
{
    if digits.len() == 0 {
        0
    } else {
        decimal_value(digits.drop_last()) * 10 + (digits.last() as int - '0' as int)
    }
}

proof fn lemma_digit_value(d: nat)
    requires
        d < 10,
    ensures
        digit_char(d) as int - '0' as int == d,
        '0' <= digit_char(d) <= '9',
{
}

/// Writing a number in decimal gives digits only, without a leading zero
/// (but for 0 itself), that stand for the number.
pub proof fn lemma_decimal_round_trip(n: nat)
    ensures
        decimal_value(decimal_spec(n)) == n,
        decimal_spec(n).len() >= 1,
        forall|i: int| 0 <= i < decimal_spec(n).len() ==> '0' <= #[trigger] decimal_spec(n)[i] <= '9',
        n > 0 ==> decimal_spec(n)[0] != '0',
    decreases n,
{
    if n >= 10 {
        lemma_decimal_round_trip(n / 10);
        let d = decimal_spec(n);
        assert(d.drop_last() =~= decimal_spec(n / 10));
        assert(n == (n / 10) * 10 + n % 10) by (nonlinear_arith);
        lemma_digit_value(n % 10);
        assert(d.last() == digit_char(n % 10));
        assert forall|i: int| 0 <= i < d.len() implies '0' <= #[trigger] d[i] <= '9' by {
            if i < d.len() - 1 {
                assert(d[i] == decimal_spec(n / 10)[i]);
            }
        }
    } else {
        lemma_digit_value(n);
        assert(decimal_spec(n).drop_last() =~= Seq::<char>::empty());
        assert(decimal_value(Seq::<char>::empty()) == 0);
    }
}

/// Page `page` (counted from 1) of the REST endpoint of a user's
/// repositories, a hundred to a page, most starred first.
pub open spec fn repos_url_spec(username: Seq<char>, page: u32) -> Seq<char> {
    "https://api.github.com/users/"@ + username + "/repos?per_page=100&sort=stars&direction=desc&page="@
        + decimal_spec(page as nat)
}

/// The page to fetch after page `page` brought `received` repositories:
/// the next one while pages come back full, none once one comes back short.
pub open spec fn next_repos_page_spec(page: u32, received: usize) -> Option<u32> {
    if received == REPOS_PER_PAGE && page < u32::MAX {
        Some((page + 1) as u32)
    } else {
        None
    }
}

/// The address of the avatar at 460 pixels: the size parameter joins an
/// existing query with `&`, or starts one with `?`.
pub open spec fn hi_res_avatar_url_spec(avatar_url: Seq<char>) -> Seq<char> {
    if avatar_url.contains('?') {
        avatar_url + "&s=460"@
    } else {
        avatar_url + "?s=460"@
    }
}

/// The avatar's address is kept whole at the front, and the result always
/// carries a query that asks for size 460.
pub proof fn lemma_hi_res_keeps_address(avatar_url: Seq<char>)
    ensures
        hi_res_avatar_url_spec(avatar_url).subrange(0, avatar_url.len() as int) == avatar_url,
        hi_res_avatar_url_spec(avatar_url).contains('?'),
        hi_res_avatar_url_spec(avatar_url).len() == avatar_url.len() + 6,
        hi_res_avatar_url_spec(avatar_url).subrange(
            avatar_url.len() + 1int,
            avatar_url.len() + 6int,
        ) == "s=460"@,
{
    reveal_strlit("&s=460");
    reveal_strlit("?s=460");
    reveal_strlit("s=460");
    let r = hi_res_avatar_url_spec(avatar_url);
    assert(r.subrange(0, avatar_url.len() as int) =~= avatar_url);
    assert(r.subrange(avatar_url.len() + 1int, avatar_url.len() + 6int) =~= "s=460"@);
    if avatar_url.contains('?') {
        let i = choose|i: int| 0 <= i < avatar_url.len() && avatar_url[i] == '?';
        assert(r[i] == '?');
    } else {
        assert(r[avatar_url.len() as int] == '?');
    }
}

/// Both user addresses start with the users endpoint followed by the login;
/// the repositories address then asks for page `page`, written in decimal,
/// at its very end.
pub proof fn lemma_user_addresses(username: Seq<char>, page: u32)
    ensures
        user_url_spec(username).len() == 29 + username.len(),
        user_url_spec(username).subrange(0, 29) == "https://api.github.com/users/"@,
        user_url_spec(username).subrange(29, 29int + username.len()) == username,
        repos_url_spec(username, page).subrange(0, 29int + username.len()) == user_url_spec(username),
        repos_url_spec(username, page).subrange(
            repos_url_spec(username, page).len() - decimal_spec(page as nat).len(),
            repos_url_spec(username, page).len() as int,
        ) == decimal_spec(page as nat),
{
    reveal_strlit("https://api.github.com/users/");
    let u = user_url_spec(username);
    let r = repos_url_spec(username, page);
    assert(u.subrange(0, 29) =~= "https://api.github.com/users/"@);
    assert(u.subrange(29, 29int + username.len()) =~= username);
    assert(r.subrange(0, 29int + username.len()) =~= u);
    assert(r.subrange(r.len() - decimal_spec(page as nat).len(), r.len() as int) =~= decimal_spec(
        page as nat,
    ));
}

/// The address of a user's profile.
pub fn user_url(username: &str) -> (url: String)
    ensures
        url@ == user_url_spec(username@),
{
    let mut url = String::from_str("https://api.github.com/users/");
    url.append(username);
    url
}

/// The decimal digit `d` as text.
fn digit_str(d: u32) -> (text: &'static str)
    requires
        d < 10,
    ensures
        text@ == seq![digit_char(d as nat)],
{
    match d {
        0 => {
            proof {
                reveal_strlit("0");
            }
            "0"
        },
        1 => {
            proof {
                reveal_strlit("1");
            }
            "1"
        },
        2 => {
            proof {
                reveal_strlit("2");
            }
            "2"
        },
        3 => {
            proof {
                reveal_strlit("3");
            }
            "3"
        },
        4 => {
            proof {
                reveal_strlit("4");
            }
            "4"
        },
        5 => {
            proof {
                reveal_strlit("5");
            }
            "5"
        },
        6 => {
            proof {
                reveal_strlit("6");
            }
            "6"
        },
        7 => {
            proof {
                reveal_strlit("7");
            }
            "7"
        },
        8 => {
            proof {
                reveal_strlit("8");
            }
            "8"
        },
        _ => {
            proof {
                reveal_strlit("9");
            }
            "9"
        },
    }
}

/// `n` in decimal.
pub fn decimal_string(n: u32) -> (text: String)
    ensures
        text@ == decimal_spec(n as nat),
    decreases n,
{
    if n < 10 {
        String::from_str(digit_str(n))
    } else {
        let mut text = decimal_string(n / 10);
        text.append(digit_str(n % 10));
        text
    }
}

/// The address of page `page` of a user's repositories.
pub fn repos_url(username: &str, page: u32) -> (url: String)
    ensures
        url@ == repos_url_spec(username@, page),
{
    let mut url = String::from_str("https://api.github.com/users/");
    url.append(username);
    url.append("/repos?per_page=100&sort=stars&direction=desc&page=");
    let number = decimal_string(page);
    url.append(number.as_str());
    url
}

/// Pages are fetched one after another: the next page, if any, follows the
/// last directly, and there is one exactly when the last page came back
/// with a full hundred repositories (and its number is not the largest).
pub proof fn lemma_next_repos_page(page: u32, received: usize)
    ensures
        next_repos_page_spec(page, received) matches Some(next) ==> next == page + 1
            && received == 100,
        received < 100 ==> next_repos_page_spec(page, received) is None,
        received == 100 && page < u32::MAX ==> next_repos_page_spec(page, received) is Some,
{
}

/// Which page of repositories to fetch next, given that page `page` brought
/// `received` of them; `None` once the list is complete.
pub fn next_repos_page(page: u32, received: usize) -> (next: Option<u32>)
    ensures
        next == next_repos_page_spec(page, received),
{
    if received == REPOS_PER_PAGE && page < u32::MAX {
        Some(page + 1)
    } else {
        None
    }
}

/// Whether `text` holds the character `c`.
fn contains_char(text: &str, c: char) -> (found: bool)
    ensures
        found == text@.contains(c),
{
    let n = text.unicode_len();
    let mut i: usize = 0;
    while i < n
        invariant
            n == text@.len(),
            0 <= i <= n,
            forall|j: int| 0 <= j < i ==> text@[j] != c,
        decreases n - i,
    {
        if text.get_char(i) == c {
            return true;
        }
        i = i + 1;
    }
    false
}

/// The address from which the avatar is fetched at 460 pixels.
pub fn hi_res_avatar_url(avatar_url: &str) -> (url: String)
    ensures
        url@ == hi_res_avatar_url_spec(avatar_url@),
{
    let mut url = String::from_str(avatar_url);
    if contains_char(avatar_url, '?') {
        url.append("&s=460");
    } else {
        url.append("?s=460");
    }
    url
}

/// The contribution calendar is only served to a caller with a token:
/// without one the lookup fails as unauthorized before anything is sent.
pub fn require_token(token: &Option<String>) -> (result: Result<&String, CheckGitError>)
    ensures
        match *token {
            Some(t) => result == Ok::<&String, CheckGitError>(&t),
            None => result == Err::<&String, CheckGitError>(CheckGitError::Unauthorized),
        },
{
    match token {
        Some(t) => Ok(t),
        None => Err(CheckGitError::Unauthorized),
    }
}

/// The count of day `day` of week `week`, or 0 where the week has no such day.
pub open spec fn day_count(weeks: Seq<Week>, week: int, day: int) -> u32 {
    let days = weeks[week].contribution_days@;
    if 0 <= day < days.len() {
        days[day].contribution_count
    } else {
        0
    }
}

/// `matrix` lays the calendar out by weekday: seven rows, one column per
/// week, each cell the count of that day (0 where the week lacks it).
pub open spec fn is_calendar_matrix(weeks: Seq<Week>, matrix: Seq<Vec<u32>>) -> bool {
    &&& matrix.len() == 7
    &&& forall|d: int| 0 <= d < 7 ==> (#[trigger] matrix[d])@.len() == weeks.len()
    &&& forall|d: int, w: int|
        0 <= d < 7 && 0 <= w < weeks.len() ==> #[trigger] matrix[d]@[w] == day_count(weeks, w, d)
}

/// In a calendar matrix, row `d`, column `w` holds the count of day `d` of
/// week `w` (days counted from Sunday), or 0 where that week has fewer days;
/// there are seven rows, each one column per week.
pub proof fn lemma_calendar_matrix_cells(weeks: Seq<Week>, matrix: Seq<Vec<u32>>)
    ensures
        is_calendar_matrix(weeks, matrix) ==> {
            &&& matrix.len() == 7
            &&& forall|d: int| 0 <= d < 7 ==> (#[trigger] matrix[d])@.len() == weeks.len()
            &&& forall|d: int, w: int|
                0 <= d < 7 && 0 <= w < weeks.len() ==> #[trigger] matrix[d]@[w] == if d
                    < weeks[w].contribution_days@.len() {
                    weeks[w].contribution_days@[d].contribution_count
                } else {
                    0
                }
        },
{
}

/// The calendar turned into seven weekday rows.
pub fn contribution_matrix(weeks: &Vec<Week>) -> (matrix: Vec<Vec<u32>>)
    ensures
        is_calendar_matrix(weeks@, matrix@),
        matrix@.len() == 7,
        forall|d: int| 0 <= d < 7 ==> (#[trigger] matrix@[d])@.len() == weeks@.len(),
        forall|d: int, w: int|
            0 <= d < 7 && 0 <= w < weeks@.len() ==> #[trigger] matrix@[d]@[w] == if d
                < weeks@[w].contribution_days@.len() {
                weeks@[w].contribution_days@[d].contribution_count
            } else {
                0
            },
{
    let mut matrix: Vec<Vec<u32>> = Vec::new();
    let mut day: usize = 0;
    while day < 7
        invariant
            0 <= day <= 7,
            matrix@.len() == day,
            forall|d: int| 0 <= d < day ==> (#[trigger] matrix@[d])@.len() == weeks@.len(),
            forall|d: int, w: int|
                0 <= d < day && 0 <= w < weeks@.len() ==> #[trigger] matrix@[d]@[w] == day_count(
                    weeks@,
                    w,
                    d,
                ),
        decreases 7 - day,
    {
        let mut row: Vec<u32> = Vec::new();
        let mut week: usize = 0;
        while week < weeks.len()
            invariant
                0 <= day < 7,
                0 <= week <= weeks@.len(),
                row@.len() == week,
                forall|w: int| 0 <= w < week ==> row@[w] == day_count(weeks@, w, day as int),
            decreases weeks@.len() - week,
        {
            let days = &weeks[week].contribution_days;
            let value: u32 = if day < days.len() {
                days[day].contribution_count
            } else {
                0
            };
            row.push(value);
            week = week + 1;
        }
        matrix.push(row);
        day = day + 1;
    }
    matrix
}

/// The yearly totals of a contributions collection.
pub open spec fn stats_of(collection: ContributionsCollection) -> ContributionStats {
    ContributionStats {
        commits: collection.total_commit_contributions,
        pull_requests: collection.total_pull_request_contributions,
        reviews: collection.total_pull_request_review_contributions,
        issues: collection.total_issue_contributions,
        repos_contributed: collection.total_repositories_with_contributed_commits,
    }
}

/// The totals that the collection reports.
pub fn contribution_stats(collection: &ContributionsCollection) -> (stats: ContributionStats)
    ensures
        stats == stats_of(*collection),
        stats.commits == collection.total_commit_contributions,
        stats.pull_requests == collection.total_pull_request_contributions,
        stats.reviews == collection.total_pull_request_review_contributions,
        stats.issues == collection.total_issue_contributions,
        stats.repos_contributed == collection.total_repositories_with_contributed_commits,
{
    ContributionStats {
        commits: collection.total_commit_contributions,
        pull_requests: collection.total_pull_request_contributions,
        reviews: collection.total_pull_request_review_contributions,
        issues: collection.total_issue_contributions,
        repos_contributed: collection.total_repositories_with_contributed_commits,
    }
}

/// What the contributions query yields, given its parsed body (`None` where
/// the body did not parse): the weekday matrix and the totals, or
/// `InvalidResponse` where the body did not parse or carries no data.
pub fn contributions_from_response(parsed: Option<GraphQLResponse>) -> (result: Result<
    (Vec<Vec<u32>>, ContributionStats),
    CheckGitError,
>)
    ensures
        match parsed {
            Some(GraphQLResponse { data: Some(data) }) => {
                let collection = data.user.contributions_collection;
                &&& result is Ok
                &&& is_calendar_matrix(
                    collection.contribution_calendar.weeks@,
                    result->Ok_0.0@,
                )
                &&& result->Ok_0.1 == stats_of(collection)
            },
            _ => result == Err::<(Vec<Vec<u32>>, ContributionStats), CheckGitError>(
                CheckGitError::InvalidResponse,
            ),
        },
{
    let response = match parsed {
        Some(r) => r,
        None => return Err(CheckGitError::InvalidResponse),
    };
    let data = match response.data {
        Some(d) => d,
        None => return Err(CheckGitError::InvalidResponse),
    };
    let collection = data.user.contributions_collection;
    let matrix = contribution_matrix(&collection.contribution_calendar.weeks);
    let stats = contribution_stats(&collection);
    Ok((matrix, stats))
}

} // verus!
