use checkgit::avatar::{center_square, frame_avatar, process_avatar, AVATAR_SIZE};
use checkgit::picture::{crop_picture, decode_picture, resize_picture, ResizeFilter};
use checkgit::profile::{assemble_profile, top_repos};
use checkgit::{CheckGitError, ContributionStats, GithubRepoResponse, GithubUserResponse};

fn repo(name: &str, stars: u32) -> GithubRepoResponse {
    GithubRepoResponse { name: name.to_string(), stargazers_count: stars }
}

fn pairs(list: &[(&str, u32)]) -> Vec<(String, u32)> {
    list.iter().map(|(n, s)| (n.to_string(), *s)).collect()
}

fn png_bytes(width: u32, height: u32) -> Vec<u8> {
    let img = image::DynamicImage::new_rgb8(width, height);
    let mut bytes = std::io::Cursor::new(Vec::new());
    img.write_to(&mut bytes, image::ImageFormat::Png).unwrap();
    bytes.into_inner()
}

#[test]
fn top_repos_are_the_three_most_starred() {
    let repos = vec![repo("a", 5), repo("b", 40), repo("c", 1), repo("d", 17), repo("e", 3)];
    assert_eq!(top_repos(&repos), pairs(&[("b", 40), ("d", 17), ("a", 5)]));
}

#[test]
fn top_repos_keep_the_order_of_equal_stars() {
    let repos = vec![repo("a", 5), repo("b", 10), repo("c", 10), repo("d", 10)];
    assert_eq!(top_repos(&repos), pairs(&[("b", 10), ("c", 10), ("d", 10)]));
}

#[test]
fn top_repos_of_few_repositories_lists_them_all() {
    assert_eq!(top_repos(&vec![repo("x", 0), repo("y", 2)]), pairs(&[("y", 2), ("x", 0)]));
    assert_eq!(top_repos(&Vec::new()), Vec::<(String, u32)>::new());
}

#[test]
fn centred_square_of_wide_tall_and_square_images() {
    assert_eq!(center_square(10, 6), (2, 0, 6));
    assert_eq!(center_square(5, 8), (0, 1, 5));
    assert_eq!(center_square(7, 7), (0, 0, 7));
    assert_eq!(center_square(9, 4), (2, 0, 4));
}

#[test]
fn avatar_is_cut_square_and_scaled() {
    let avatar = process_avatar(&png_bytes(30, 20)).ok().unwrap();
    let framing = avatar.framing();
    assert_eq!(framing.source, (30, 20));
    assert_eq!(framing.cut, (5, 0, 20, 20));
    assert_eq!(framing.filter, Some(ResizeFilter::Lanczos3));
    assert_eq!((framing.width, framing.height), (AVATAR_SIZE, AVATAR_SIZE));
    let image = avatar.into_image();
    assert_eq!((image.width(), image.height()), (AVATAR_SIZE, AVATAR_SIZE));
}

#[test]
fn tall_avatar_is_cut_in_the_middle() {
    let avatar = process_avatar(&png_bytes(9, 14)).ok().unwrap();
    let framing = avatar.framing();
    assert_eq!(framing.cut, (0, 2, 9, 9));
    assert_eq!((framing.width, framing.height), (AVATAR_SIZE, AVATAR_SIZE));
}

#[test]
fn picture_steps_record_what_they_did() {
    let decoded = decode_picture(&png_bytes(12, 8)).ok().unwrap();
    let f = decoded.framing();
    assert_eq!((f.source, f.cut, f.filter, f.width, f.height), ((12, 8), (0, 0, 12, 8), None, 12, 8));
    let cut = crop_picture(&decoded, 3, 1, 5, 5);
    let f = cut.framing();
    assert_eq!((f.source, f.cut, f.width, f.height), ((12, 8), (3, 1, 5, 5), 5, 5));
    let scaled = resize_picture(&cut, 16, ResizeFilter::Nearest);
    let f = scaled.framing();
    assert_eq!((f.cut, f.filter, f.width, f.height), ((3, 1, 5, 5), Some(ResizeFilter::Nearest), 16, 16));
    let image = scaled.into_image();
    assert_eq!((image.width(), image.height()), (16, 16));
}

#[test]
fn decoded_picture_is_framed_as_avatar() {
    let decoded = decode_picture(&png_bytes(40, 25)).ok().unwrap();
    let avatar = frame_avatar(&decoded);
    let f = avatar.framing();
    assert_eq!(f.source, (40, 25));
    assert_eq!(f.cut, (7, 0, 25, 25));
    assert_eq!(f.filter, Some(ResizeFilter::Lanczos3));
    assert_eq!((f.width, f.height), (AVATAR_SIZE, AVATAR_SIZE));
    let image = avatar.into_image();
    assert_eq!((image.width(), image.height()), (AVATAR_SIZE, AVATAR_SIZE));
}

#[test]
fn undecodable_avatar_is_an_image_error() {
    match process_avatar(b"not an image at all") {
        Err(CheckGitError::ImageError(text)) => assert!(!text.is_empty()),
        other => panic!("unexpected outcome: {:?}", other.map(|_| ())),
    }
}

#[test]
fn profile_is_assembled_from_the_answers() {
    let user = GithubUserResponse {
        name: None,
        followers: 11,
        following: 3,
        avatar_url: "https://avatars.githubusercontent.com/u/1".to_string(),
        bio: Some("hello".to_string()),
        login: "octocat".to_string(),
        public_repos: 4,
    };
    let repos = vec![repo("a", 5), repo("b", 40), repo("c", 1), repo("d", 17)];
    let stats = ContributionStats {
        commits: 1,
        pull_requests: 2,
        reviews: 3,
        issues: 4,
        repos_contributed: 5,
    };
    let matrix = vec![vec![1, 2]; 7];
    let profile = assemble_profile(
        user,
        repos,
        matrix.clone(),
        stats,
        image::DynamicImage::new_rgb8(2, 2),
    );
    assert_eq!(profile.username, "octocat");
    assert_eq!(profile.display_name, None);
    assert_eq!(profile.bio.as_deref(), Some("hello"));
    assert_eq!(profile.followers, 11);
    assert_eq!(profile.following, 3);
    assert_eq!(profile.repo_count, 4);
    assert_eq!(profile.total_stars, 63);
    assert_eq!(profile.top_repos, pairs(&[("b", 40), ("d", 17), ("a", 5)]));
    assert_eq!(profile.contribution_matrix, matrix);
    assert_eq!(profile.stats, stats);
    assert_eq!(profile.shown_name(), "octocat");
}

#[test]
fn shown_name_prefers_the_display_name() {
    let user = GithubUserResponse {
        name: Some("The Octocat".to_string()),
        followers: 0,
        following: 0,
        avatar_url: String::new(),
        bio: None,
        login: "octocat".to_string(),
        public_repos: 0,
    };
    let profile = assemble_profile(
        user,
        Vec::new(),
        Vec::new(),
        ContributionStats {
            commits: 0,
            pull_requests: 0,
            reviews: 0,
            issues: 0,
            repos_contributed: 0,
        },
        image::DynamicImage::new_rgb8(1, 1),
    );
    assert_eq!(profile.shown_name(), "The Octocat");
    assert!(profile.top_repos.is_empty());
    assert_eq!(profile.total_stars, 0);
}
