//! The profile as it is shown: the user's own fields, the star total, the
//! most starred repositories and the contribution data.
use vstd::prelude::*;

use crate::github::{calculate_total_stars, stars_sum};
use crate::models::{ContributionStats, GithubRepoResponse, GithubUserResponse};

verus! {

/// Repository `i` comes before repository `j` when the list is ordered by
/// stars, most first, repositories with equal stars keeping their order.
pub open spec fn ranks_before(repos: Seq<GithubRepoResponse>, i: int, j: int) -> bool {
    ||| repos[i].stargazers_count > repos[j].stargazers_count
    ||| (repos[i].stargazers_count == repos[j].stargazers_count && i < j)
}

/// `picks` are, in order, the first `picks.len()` of the repositories with an
/// index below `bound` in that order.
pub open spec fn leads_prefix(repos: Seq<GithubRepoResponse>, picks: Seq<usize>, bound: int) -> bool {
    &&& forall|k: int| 0 <= k < picks.len() ==> #[trigger] picks[k] < bound
    &&& forall|a: int, b: int|
        0 <= a < b < picks.len() ==> #[trigger] ranks_before(
            repos,
            picks[a] as int,
            picks[b] as int,
        )
    &&& forall|i: int, k: int|
        0 <= i < bound && 0 <= k < picks.len() && !picks.contains(i as usize)
            ==> #[trigger] ranks_before(repos, picks[k] as int, i)
}

/// How a repository is listed: its name and its stars.
pub open spec fn entry_of(repos: Seq<GithubRepoResponse>, i: int) -> (String, u32) {
    (repos[i].name, repos[i].stargazers_count)
}

/// `entry` lists repository `i`.
pub open spec fn lists_repo(entry: (String, u32), repos: Seq<GithubRepoResponse>, i: int) -> bool {
    entry == entry_of(repos, i)
}

/// `entry` lists one of the repositories.
pub open spec fn is_some_repo(entry: (String, u32), repos: Seq<GithubRepoResponse>) -> bool {
    exists|i: int| 0 <= i < repos.len() && #[trigger] lists_repo(entry, repos, i)
}

/// How many repositories the profile lists.
pub open spec fn top_count(n: int) -> int {
    if n < 3 {
        n
    } else {
        3
    }
}

/// `top` lists, as (name, stars), the `top_count` most starred of `repos`,
/// most first, ties in the order the repositories came in.
pub open spec fn is_top_repos(repos: Seq<GithubRepoResponse>, top: Seq<(String, u32)>) -> bool {
    &&& top.len() == top_count(repos.len() as int)
    &&& exists|picks: Seq<usize>|
        {
            &&& picks.len() == top.len()
            &&& leads_prefix(repos, picks, repos.len() as int)
            &&& forall|k: int|
                0 <= k < picks.len() ==> #[trigger] top[k] == entry_of(repos, picks[k] as int)
        }
}

fn ranks_before_exec(repos: &Vec<GithubRepoResponse>, i: usize, j: usize) -> (before: bool)
    requires
        i < repos@.len(),
        j < repos@.len(),
    ensures
        before == ranks_before(repos@, i as int, j as int),
{
    let si = repos[i].stargazers_count;
    let sj = repos[j].stargazers_count;
    si > sj || (si == sj && i < j)
}

/// The indices of the (at most three) most starred repositories, in order.
fn top_indices(repos: &Vec<GithubRepoResponse>) -> (top: Vec<usize>)
    ensures
        top@.len() == top_count(repos@.len() as int),
        leads_prefix(repos@, top@, repos@.len() as int),
{
    let n = repos.len();
    let mut top: Vec<usize> = Vec::new();
    let mut j: usize = 0;
    while j < n
        invariant
            n == repos@.len(),
            0 <= j <= n,
            top@.len() == top_count(j as int),
            leads_prefix(repos@, top@, j as int),
            forall|i: int| 0 <= i < j && j <= 3 ==> #[trigger] top@.contains(i as usize),
        decreases n - j,
    {
        // the first place whose repository ranks after `j`
        let mut p: usize = 0;
        while p < top.len() && !ranks_before_exec(repos, j, top[p])
            invariant
                n == repos@.len(),
                j < n,
                0 <= p <= top@.len(),
                top@.len() <= 3,
                leads_prefix(repos@, top@, j as int),
                forall|q: int| 0 <= q < p ==> ranks_before(repos@, top@[q] as int, j as int),
            decreases top@.len() - p,
        {
            p = p + 1;
        }
        let ghost old_top = top@;
        proof {
            assert forall|q: int| p <= q < old_top.len() implies ranks_before(
                repos@,
                j as int,
                old_top[q] as int,
            ) by {
                if q > p {
                    assert(ranks_before(repos@, old_top[p as int] as int, old_top[q] as int));
                }
            }
        }
        if p < 3 {
            top.insert(p, j);
            if top.len() > 3 {
                let ghost before_pop = top@;
                top.pop();
                assert(top@ =~= before_pop.subrange(0, 3));
            }
            proof {
                let new_top = top@;
                assert forall|k: int| 0 <= k < new_top.len() implies #[trigger] new_top[k] < j + 1
                    by {
                    if k < p {
                        assert(new_top[k] == old_top[k]);
                    } else if k > p {
                        assert(new_top[k] == old_top[k - 1]);
                    }
                }
                assert forall|a: int, b: int| 0 <= a < b < new_top.len() implies #[trigger] ranks_before(
                    repos@,
                    new_top[a] as int,
                    new_top[b] as int,
                ) by {
                    if b < p {
                        assert(new_top[a] == old_top[a] && new_top[b] == old_top[b]);
                    } else if b == p {
                        assert(new_top[a] == old_top[a]);
                    } else if a < p {
                        assert(new_top[a] == old_top[a] && new_top[b] == old_top[b - 1]);
                    } else if a == p {
                        assert(new_top[b] == old_top[b - 1]);
                    } else {
                        assert(new_top[a] == old_top[a - 1] && new_top[b] == old_top[b - 1]);
                    }
                }
                assert forall|i: int, k: int|
                    0 <= i < j + 1 && 0 <= k < new_top.len() && !new_top.contains(
                        i as usize,
                    ) implies #[trigger] ranks_before(repos@, new_top[k] as int, i) by {
                    assert(new_top[p as int] == j);
                    if i == j {
                        assert(new_top.contains(j));
                    }
                    let last = old_top.len() - 1;
                    // what stands at `k` now
                    if k < p {
                        assert(new_top[k] == old_top[k]);
                    } else if k > p {
                        assert(new_top[k] == old_top[k - 1]);
                    }
                    if old_top.contains(i as usize) {
                        // `i` was the pick that fell off the end
                        let q = choose|q: int| 0 <= q < old_top.len() && old_top[q] == i as usize;
                        if q < p {
                            assert(new_top[q] == old_top[q]);
                        } else if q + 1 < new_top.len() {
                            assert(new_top[q + 1] == old_top[q]);
                        }
                        assert(q == last);
                        if k == p {
                            assert(ranks_before(repos@, j as int, old_top[q] as int));
                        } else if k > p {
                            assert(ranks_before(repos@, old_top[k - 1] as int, old_top[q] as int));
                        } else {
                            assert(ranks_before(repos@, old_top[k] as int, old_top[q] as int));
                        }
                    } else {
                        assert(i < j);
                        if k == p {
                            if p < old_top.len() {
                                assert(ranks_before(repos@, j as int, old_top[p as int] as int));
                                assert(ranks_before(repos@, old_top[p as int] as int, i));
                            } else {
                                assert(old_top.contains(i as usize));
                            }
                        } else if k > p {
                            assert(ranks_before(repos@, old_top[k - 1] as int, i));
                        } else {
                            assert(ranks_before(repos@, old_top[k] as int, i));
                        }
                    }
                }
                assert forall|i: int| 0 <= i < j + 1 && j + 1 <= 3 implies #[trigger] new_top.contains(
                    i as usize,
                ) by {
                    if i == j {
                        assert(new_top[p as int] == j);
                    } else {
                        assert(old_top.contains(i as usize));
                        let q = choose|q: int| 0 <= q < old_top.len() && old_top[q] == i as usize;
                        if q < p {
                            assert(new_top[q] == old_top[q]);
                        } else {
                            assert(new_top[q + 1] == old_top[q]);
                        }
                    }
                }
            }
        } else {
            proof {
                assert forall|i: int, k: int|
                    0 <= i < j + 1 && 0 <= k < top@.len() && !top@.contains(
                        i as usize,
                    ) implies #[trigger] ranks_before(repos@, top@[k] as int, i) by {
                    if i < j {
                    } else {
                        assert(ranks_before(repos@, top@[k] as int, j as int));
                    }
                }
            }
        }
        j = j + 1;
    }
    top
}

/// The (at most three) most starred repositories, as (name, stars), most
/// first; repositories with equal stars keep the order they came in.
pub fn top_repos(repos: &Vec<GithubRepoResponse>) -> (top: Vec<(String, u32)>)
    ensures
        is_top_repos(repos@, top@),
        repos@.len() >= 3 ==> top@.len() == 3,
        repos@.len() < 3 ==> top@.len() == repos@.len(),
{
    let picks = top_indices(repos);
    proof {
        lemma_top_count(repos@.len() as int);
    }
    let mut top: Vec<(String, u32)> = Vec::new();
    let mut k: usize = 0;
    while k < picks.len()
        invariant
            0 <= k <= picks@.len(),
            forall|m: int| 0 <= m < picks@.len() ==> #[trigger] picks@[m] < repos@.len(),
            top@.len() == k,
            forall|m: int|
                0 <= m < k ==> #[trigger] top@[m] == entry_of(repos@, picks@[m] as int),
        decreases picks@.len() - k,
    {
        let repo = &repos[picks[k]];
        top.push((repo.name.clone(), repo.stargazers_count));
        k = k + 1;
    }
    top
}

/// Three repositories are listed once there are three or more; with fewer,
/// every one of them is.
pub proof fn lemma_top_count(n: int)
    requires
        n >= 0,
    ensures
        n >= 3 ==> top_count(n) == 3,
        n < 3 ==> top_count(n) == n,
{
}

/// A top list has three entries when there are at least three repositories,
/// and otherwise one entry per repository.
pub proof fn lemma_top_repos_count(repos: Seq<GithubRepoResponse>, top: Seq<(String, u32)>)
    requires
        is_top_repos(repos, top),
    ensures
        repos.len() >= 3 ==> top.len() == 3,
        repos.len() < 3 ==> top.len() == repos.len(),
{
    lemma_top_count(repos.len() as int);
}

proof fn lemma_equal_stars_picks(repos: Seq<GithubRepoResponse>, picks: Seq<usize>, k: int)
    requires
        repos.len() <= usize::MAX,
        forall|i: int, j: int|
            0 <= i < repos.len() && 0 <= j < repos.len() ==> repos[i].stargazers_count
                == repos[j].stargazers_count,
        leads_prefix(repos, picks, repos.len() as int),
        0 <= k < picks.len(),
    ensures
        forall|m: int| 0 <= m <= k ==> picks[m] == m,
    decreases k,
{
    if k > 0 {
        lemma_equal_stars_picks(repos, picks, k - 1);
        assert(ranks_before(repos, picks[k - 1] as int, picks[k] as int));
    }
    // place `k` is taken by index `k`: a smaller index is an earlier pick,
    // and a larger one would leave `k` out while ranking after it
    if picks[k] > k {
        if picks.contains(k as usize) {
            let m = choose|m: int| 0 <= m < picks.len() && picks[m] == k as usize;
            if m < k {
                assert(picks[m] == m);
            } else if m > k {
                assert(ranks_before(repos, picks[k] as int, picks[m] as int));
            }
        } else {
            assert(ranks_before(repos, picks[k] as int, k));
        }
    } else if picks[k] < k {
        assert(picks[picks[k] as int] == picks[k]);
        assert(ranks_before(repos, picks[picks[k] as int] as int, picks[k] as int));
    }
}

/// Where all repositories have the same number of stars, the list keeps the
/// order they came in: it is their first three (or all of them, if fewer).
pub proof fn lemma_top_repos_equal_stars_keep_order(
    repos: Seq<GithubRepoResponse>,
    top: Seq<(String, u32)>,
)
    requires
        repos.len() <= usize::MAX,
        is_top_repos(repos, top),
        forall|i: int, j: int|
            0 <= i < repos.len() && 0 <= j < repos.len() ==> repos[i].stargazers_count
                == repos[j].stargazers_count,
    ensures
        forall|k: int|
            0 <= k < top.len() ==> #[trigger] top[k] == (repos[k].name, repos[k].stargazers_count),
{
    let picks = choose|picks: Seq<usize>|
        {
            &&& picks.len() == top.len()
            &&& leads_prefix(repos, picks, repos.len() as int)
            &&& forall|k: int|
                0 <= k < picks.len() ==> #[trigger] top[k] == entry_of(repos, picks[k] as int)
        };
    if top.len() > 0 {
        lemma_equal_stars_picks(repos, picks, top.len() - 1);
    }
    assert forall|k: int| 0 <= k < top.len() implies #[trigger] top[k] == (
        repos[k].name,
        repos[k].stargazers_count,
    ) by {
        assert(top[k] == entry_of(repos, picks[k] as int));
        assert(picks[k] == k);
    }
}

/// Listed repositories come most starred first.
pub proof fn lemma_top_repos_sorted(repos: Seq<GithubRepoResponse>, top: Seq<(String, u32)>)
    requires
        is_top_repos(repos, top),
    ensures
        forall|a: int, b: int| 0 <= a < b < top.len() ==> top[a].1 >= top[b].1,
{
    let picks = choose|picks: Seq<usize>|
        {
            &&& picks.len() == top.len()
            &&& leads_prefix(repos, picks, repos.len() as int)
            &&& forall|k: int|
                0 <= k < picks.len() ==> #[trigger] top[k] == entry_of(repos, picks[k] as int)
        };
    assert forall|a: int, b: int| 0 <= a < b < top.len() implies top[a].1 >= top[b].1 by {
        assert(ranks_before(repos, picks[a] as int, picks[b] as int));
        assert(top[a] == entry_of(repos, picks[a] as int));
        assert(top[b] == entry_of(repos, picks[b] as int));
    }
}

/// Where there are repositories, the first listed has as many stars as any
/// of them; every listed entry is one of the repositories; and a repository
/// with more stars than a listed one is listed itself.
pub proof fn lemma_top_repos_are_most_starred(repos: Seq<GithubRepoResponse>, top: Seq<(String, u32)>)
    requires
        is_top_repos(repos, top),
        repos.len() <= usize::MAX,
    ensures
        top.len() > 0 ==> forall|i: int|
            0 <= i < repos.len() ==> #[trigger] repos[i].stargazers_count <= top[0].1,
        forall|k: int| 0 <= k < top.len() ==> #[trigger] is_some_repo(top[k], repos),
        forall|i: int, k: int|
            0 <= i < repos.len() && 0 <= k < top.len() && repos[i].stargazers_count > top[k].1
                ==> exists|m: int|
                0 <= m < top.len() && #[trigger] lists_repo(top[m], repos, i),
{
    let picks = choose|picks: Seq<usize>|
        {
            &&& picks.len() == top.len()
            &&& leads_prefix(repos, picks, repos.len() as int)
            &&& forall|k: int|
                0 <= k < picks.len() ==> #[trigger] top[k] == entry_of(repos, picks[k] as int)
        };
    if top.len() > 0 {
        assert forall|i: int| 0 <= i < repos.len() implies #[trigger] repos[i].stargazers_count
            <= top[0].1 by {
            assert(top[0] == entry_of(repos, picks[0] as int));
            if picks.contains(i as usize) {
                let m = choose|m: int| 0 <= m < picks.len() && picks[m] == i as usize;
                if m > 0 {
                    assert(ranks_before(repos, picks[0] as int, picks[m] as int));
                }
            } else {
                assert(ranks_before(repos, picks[0] as int, i));
            }
        }
    }
    assert forall|i: int, k: int|
        0 <= i < repos.len() && 0 <= k < top.len() && repos[i].stargazers_count > top[k].1
            implies exists|m: int|
            0 <= m < top.len() && #[trigger] lists_repo(top[m], repos, i) by {
        assert(top[k] == entry_of(repos, picks[k] as int));
        if !picks.contains(i as usize) {
            assert(ranks_before(repos, picks[k] as int, i));
        }
        let m = choose|m: int| 0 <= m < picks.len() && picks[m] == i as usize;
        assert(lists_repo(top[m], repos, picks[m] as int));
    }
    assert forall|k: int| 0 <= k < top.len() implies #[trigger] is_some_repo(top[k], repos) by {
        lemma_entry_listed(repos, top, picks, k);
    }
}

proof fn lemma_entry_listed(
    repos: Seq<GithubRepoResponse>,
    top: Seq<(String, u32)>,
    picks: Seq<usize>,
    k: int,
)
    requires
        0 <= k < top.len(),
        picks.len() == top.len(),
        leads_prefix(repos, picks, repos.len() as int),
        forall|m: int| 0 <= m < picks.len() ==> #[trigger] top[m] == entry_of(repos, picks[m] as int),
    ensures
        is_some_repo(top[k], repos),
{
    let i = picks[k] as int;
    assert(top[k] == entry_of(repos, i));
    assert(lists_repo(top[k], repos, i));
}

proof fn lemma_leads_prefix_unique(
    repos: Seq<GithubRepoResponse>,
    p1: Seq<usize>,
    p2: Seq<usize>,
    k: int,
)
    requires
        repos.len() <= usize::MAX,
        p1.len() == p2.len(),
        leads_prefix(repos, p1, repos.len() as int),
        leads_prefix(repos, p2, repos.len() as int),
        0 <= k < p1.len(),
        forall|m: int| 0 <= m < k ==> p1[m] == p2[m],
    ensures
        p1[k] == p2[k],
{
    let a = p1[k];
    let b = p2[k];
    if a != b {
        // `b` ranks before `a`
        if p2.contains(a) {
            let m = choose|m: int| 0 <= m < p2.len() && p2[m] == a;
            if m < k {
                assert(p1[m] == a);
                assert(ranks_before(repos, p1[m] as int, p1[k] as int));
            } else {
                assert(ranks_before(repos, p2[k] as int, p2[m] as int));
            }
        } else {
            assert(ranks_before(repos, p2[k] as int, a as int));
        }
        // and `a` ranks before `b`
        if p1.contains(b) {
            let m = choose|m: int| 0 <= m < p1.len() && p1[m] == b;
            if m < k {
                assert(p2[m] == b);
                assert(ranks_before(repos, p2[m] as int, p2[k] as int));
            } else {
                assert(ranks_before(repos, p1[k] as int, p1[m] as int));
            }
        } else {
            assert(ranks_before(repos, p1[k] as int, b as int));
        }
    }
}

proof fn lemma_leads_prefix_agree(
    repos: Seq<GithubRepoResponse>,
    p1: Seq<usize>,
    p2: Seq<usize>,
    k: int,
)
    requires
        repos.len() <= usize::MAX,
        p1.len() == p2.len(),
        leads_prefix(repos, p1, repos.len() as int),
        leads_prefix(repos, p2, repos.len() as int),
        0 <= k <= p1.len(),
    ensures
        forall|m: int| 0 <= m < k ==> p1[m] == p2[m],
    decreases k,
{
    if k > 0 {
        lemma_leads_prefix_agree(repos, p1, p2, k - 1);
        lemma_leads_prefix_unique(repos, p1, p2, k - 1);
    }
}

/// The list of top repositories is determined by the repositories: two
/// lists that both meet `is_top_repos` are equal.
pub proof fn lemma_top_repos_unique(
    repos: Seq<GithubRepoResponse>,
    top1: Seq<(String, u32)>,
    top2: Seq<(String, u32)>,
)
    requires
        repos.len() <= usize::MAX,
        is_top_repos(repos, top1),
        is_top_repos(repos, top2),
    ensures
        top1 == top2,
{
    let p1 = choose|picks: Seq<usize>|
        {
            &&& picks.len() == top1.len()
            &&& leads_prefix(repos, picks, repos.len() as int)
            &&& forall|k: int|
                0 <= k < picks.len() ==> #[trigger] top1[k] == entry_of(repos, picks[k] as int)
        };
    let p2 = choose|picks: Seq<usize>|
        {
            &&& picks.len() == top2.len()
            &&& leads_prefix(repos, picks, repos.len() as int)
            &&& forall|k: int|
                0 <= k < picks.len() ==> #[trigger] top2[k] == entry_of(repos, picks[k] as int)
        };
    lemma_leads_prefix_agree(repos, p1, p2, p1.len() as int);
    assert forall|m: int| 0 <= m < top1.len() implies top1[m] == top2[m] by {
        assert(top1[m] == entry_of(repos, p1[m] as int));
        assert(top2[m] == entry_of(repos, p2[m] as int));
    }
    assert(top1 =~= top2);
}

/// Everything the terminal shows of a user.
#[derive(Debug)]
pub struct UserProfile {
    pub username: String,
    pub display_name: Option<String>,
    pub bio: Option<String>,
    pub avatar_image: image::DynamicImage,
    pub followers: u32,
    pub following: u32,
    pub repo_count: u32,
    pub total_stars: u32,
    pub top_repos: Vec<(String, u32)>,
    pub contribution_matrix: Vec<Vec<u32>>,
    pub stats: ContributionStats,
}

/// The profile made of what the endpoints answered: the user's own fields,
/// the stars summed over all repositories, the three most starred
/// repositories, and the contribution data and avatar as given.
pub fn assemble_profile(
    user: GithubUserResponse,
    repos: Vec<GithubRepoResponse>,
    contribution_matrix: Vec<Vec<u32>>,
    stats: ContributionStats,
    avatar_image: image::DynamicImage,
) -> (profile: UserProfile)
    requires
        stars_sum(repos@) <= u32::MAX,
    ensures
        profile.username == user.login,
        profile.display_name == user.name,
        profile.bio == user.bio,
        profile.followers == user.followers,
        profile.following == user.following,
        profile.repo_count == user.public_repos,
        profile.total_stars == stars_sum(repos@),
        is_top_repos(repos@, profile.top_repos@),
        profile.contribution_matrix == contribution_matrix,
        profile.stats == stats,
        profile.avatar_image == avatar_image,
{
    let total_stars = calculate_total_stars(repos.as_slice());
    let top_repos = top_repos(&repos);
    UserProfile {
        username: user.login,
        display_name: user.name,
        bio: user.bio,
        avatar_image,
        followers: user.followers,
        following: user.following,
        repo_count: user.public_repos,
        total_stars,
        top_repos,
        contribution_matrix,
        stats,
    }
}

impl UserProfile {
    /// The name shown at the top: the display name, or the login where there is none.
    pub fn shown_name(&self) -> (name: String)
        ensures
            name == match self.display_name {
                Some(n) => n,
                None => self.username,
            },
    {
        match &self.display_name {
            Some(n) => n.clone(),
            None => self.username.clone(),
        }
    }
}

} // verus!
