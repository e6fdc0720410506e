use checkgit::display::{handle_line, pad_right, REPO_NAME_WIDTH};
use checkgit::display::{
    avatar_rows, checked_total_contributions, contribution_level, current_streak, level_color,
    longest_streak, month_header, month_label_cell, text_column, total_contributions, AVATAR_WIDTH,
};

fn matrix_from_days(days: &[u32]) -> Vec<Vec<u32>> {
    // days in calendar order, seven per week
    let weeks = days.len() / 7;
    let mut m = vec![Vec::new(); 7];
    for w in 0..weeks {
        for d in 0..7 {
            m[d].push(days[w * 7 + d]);
        }
    }
    m
}

#[test]
fn layout_beside_the_avatar() {
    assert_eq!(avatar_rows(AVATAR_WIDTH), 19);
    assert_eq!(text_column(AVATAR_WIDTH), 39);
}

#[test]
fn levels_follow_the_thresholds() {
    assert_eq!(contribution_level(0), 0);
    assert_eq!(contribution_level(1), 1);
    assert_eq!(contribution_level(3), 1);
    assert_eq!(contribution_level(4), 2);
    assert_eq!(contribution_level(7), 2);
    assert_eq!(contribution_level(8), 3);
    assert_eq!(contribution_level(15), 3);
    assert_eq!(contribution_level(16), 4);
    assert_eq!(contribution_level(u32::MAX), 4);
}

#[test]
fn level_colours() {
    assert_eq!(level_color(0), (80, 80, 80));
    assert_eq!(level_color(1), (0, 120, 0));
    assert_eq!(level_color(2), (0, 160, 0));
    assert_eq!(level_color(3), (0, 200, 0));
    assert_eq!(level_color(4), (0, 255, 0));
    assert_eq!(level_color(9), (0, 255, 0));
}

#[test]
fn month_label_only_in_a_month_first_week() {
    assert_eq!(month_label_cell(1, "Mar"), "Mar");
    assert_eq!(month_label_cell(7, "Jan"), "Jan");
    assert_eq!(month_label_cell(7, "Ma"), "Ma ");
    assert_eq!(month_label_cell(8, "Mar"), "   ");
    assert_eq!(month_label_cell(31, "Dec"), "   ");
}

#[test]
fn total_counts_every_cell() {
    let m = vec![vec![1, 2, 3], vec![4], vec![], vec![10, 20]];
    assert_eq!(total_contributions(&m), 40);
    assert_eq!(checked_total_contributions(&m), Some(40));
    assert_eq!(total_contributions(&[]), 0);
}

#[test]
fn total_that_does_not_fit_is_reported() {
    let m = vec![vec![u32::MAX], vec![1]];
    assert_eq!(checked_total_contributions(&m), None);
}

#[test]
fn longest_streak_runs_across_weeks() {
    // week 1: a run of 3 at its end; week 2: continues for 2 more
    let days = [0, 0, 0, 0, 1, 1, 1, 5, 2, 0, 1, 0, 0, 0];
    let m = matrix_from_days(&days);
    assert_eq!(longest_streak(&m), 5);
    assert_eq!(current_streak(&m), 1);
}

#[test]
fn current_streak_passes_over_trailing_empty_days() {
    let days = [1, 0, 2, 3, 4, 0, 0];
    let m = matrix_from_days(&days);
    assert_eq!(current_streak(&m), 3);
    assert_eq!(longest_streak(&m), 3);
}

#[test]
fn streaks_of_an_empty_heatmap() {
    let m = matrix_from_days(&[0; 14]);
    assert_eq!(longest_streak(&m), 0);
    assert_eq!(current_streak(&m), 0);
    assert_eq!(longest_streak(&[]), 0);
    assert_eq!(current_streak(&[]), 0);
}

#[test]
fn streak_over_every_day() {
    let m = matrix_from_days(&[1; 21]);
    assert_eq!(longest_streak(&m), 21);
    assert_eq!(current_streak(&m), 21);
}

#[test]
fn short_rows_count_as_days_without_contributions() {
    // the first row sets the width; missing cells count as 0
    let m = vec![vec![1, 1], vec![1], vec![1, 1], vec![1, 1], vec![1, 1], vec![1, 1]];
    // week 0: 1 1 1 1 1 1 0   week 1: 1 0 1 1 1 1 0
    assert_eq!(longest_streak(&m), 6);
    assert_eq!(current_streak(&m), 4);
}

#[test]
fn streaks_depend_only_on_active_days() {
    let a = matrix_from_days(&[0, 3, 1, 0, 7, 7, 7, 2, 0, 0, 5, 1, 0, 0]);
    let b = matrix_from_days(&[0, 1, 9, 0, 1, 20, 4, 1, 0, 0, 1, 1, 0, 0]);
    assert_eq!(longest_streak(&a), longest_streak(&b));
    assert_eq!(current_streak(&a), current_streak(&b));
    assert_eq!(longest_streak(&a), 4);
    assert_eq!(current_streak(&a), 2);
}

#[test]
fn month_header_names_the_first_week_of_each_month() {
    // 2024-03-15 00:00 UTC; the heatmap starts 52 weeks earlier, on 2023-03-17
    let now = 1_710_460_800;
    assert_eq!(month_header(now, 5).as_deref(), Some("         Apr   "));
    assert_eq!(month_header(now, 0).as_deref(), Some(""));
    let year = month_header(now, 53).unwrap();
    assert_eq!(year.len(), 53 * 3);
    assert_eq!(&year[9..12], "Apr");
}

#[test]
fn month_header_of_unrepresentable_dates_is_none() {
    assert_eq!(month_header(i64::MIN, 1), None);
    assert_eq!(month_header(i64::MAX, 1), None);
}

#[test]
fn repository_names_fill_their_column() {
    assert_eq!(pad_right("linux", REPO_NAME_WIDTH), format!("linux{}", " ".repeat(19)));
    assert_eq!(pad_right("ab", 4), "ab  ");
    assert_eq!(pad_right("ünï", 5), "ünï  ");
    assert_eq!(pad_right("too-long-name", 4), "too-long-name");
    assert_eq!(pad_right("", 0), "");
}

#[test]
fn handle_is_the_login_after_an_at() {
    assert_eq!(handle_line("octocat"), "@octocat");
}
