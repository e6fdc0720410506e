//! What the terminal view computes before it draws: where text starts beside
//! the avatar, the heatmap's shades, month labels, totals and streaks.
use vstd::prelude::*;
use vstd::string::*;
use vstd::utf8::*;

use crate::github::{day_count, is_calendar_matrix};
use crate::models::Week;

verus! {

/// Width of the avatar, in terminal columns.
pub const AVATAR_WIDTH: u32 = 35;

/// Rows the avatar takes: half its width (cells are twice as tall as wide) plus two.
pub fn avatar_rows(width: u32) -> (rows: u32)
    ensures
        rows == width / 2 + 2,
{
    width / 2 + 2
}

/// The column where the text beside the avatar starts: four past its right
/// edge, as a terminal column (taken modulo 2^16 like any `u16` conversion).
pub fn text_column(width: u32) -> (col: u16)
    requires
        width + 4 <= u32::MAX,
    ensures
        col == (width + 4) as u16,
        width + 4 <= u16::MAX ==> col == width + 4,
{
    #[verifier::truncate]
    ((width + 4) as u16)
}

/// Width, in characters, of the column of repository names.
pub const REPO_NAME_WIDTH: usize = 24;

/// `text` followed by spaces up to `width` characters; text already as wide
/// or wider is left as it is.
pub open spec fn pad_right_spec(text: Seq<char>, width: nat) -> Seq<char> {
    if text.len() < width {
        text + spaces((width - text.len()) as nat)
    } else {
        text
    }
}

/// Padding keeps the text at the front and adds only spaces, up to the
/// column's width; text as wide or wider stays as it is.
pub proof fn lemma_pad_right(text: Seq<char>, width: nat)
    ensures
        ({
            let padded = pad_right_spec(text, width);
            &&& padded.len() == if text.len() < width { width } else { text.len() }
            &&& padded.subrange(0, text.len() as int) == text
            &&& forall|i: int| text.len() <= i < padded.len() ==> #[trigger] padded[i] == ' '
        }),
{
    let padded = pad_right_spec(text, width);
    assert(padded.subrange(0, text.len() as int) =~= text);
}

/// Left-aligns `text` in a column of `width` characters.
pub fn pad_right(text: &str, width: usize) -> (padded: String)
    ensures
        padded@ == pad_right_spec(text@, width as nat),
        padded@.len() == if text@.len() < width { width as nat } else { text@.len() },
        padded@.subrange(0, text@.len() as int) == text@,
        forall|i: int| text@.len() <= i < padded@.len() ==> #[trigger] padded@[i] == ' ',
{
    proof {
        lemma_pad_right(text@, width as nat);
    }
    let mut padded = String::from_str(text);
    let mut n = text.unicode_len();
    while n < width
        invariant
            n <= width || n == text@.len(),
            text@.len() <= n,
            padded@ == text@ + spaces((n - text@.len()) as nat),
        decreases width - n,
    {
        proof {
            reveal_strlit(" ");
        }
        padded.append(" ");
        assert(text@ + spaces((n + 1 - text@.len()) as nat) =~= text@ + spaces(
            (n - text@.len()) as nat,
        ) + " "@);
        n = n + 1;
    }
    assert(text@ + spaces(0) =~= text@);
    padded
}

/// The handle shown under the name: the login after an `@`.
pub fn handle_line(username: &str) -> (line: String)
    ensures
        line@ == "@"@ + username@,
{
    let mut line = String::from_str("@");
    line.append(username);
    line
}

/// The shade (0 to 4) of a day with `value` contributions.
pub open spec fn level_of(value: u32) -> u8 {
    if value == 0 {
        0
    } else if value <= 3 {
        1
    } else if value <= 7 {
        2
    } else if value <= 15 {
        3
    } else {
        4
    }
}

/// The colour (red, green, blue) of a shade.
pub open spec fn level_color_of(level: u8) -> (u8, u8, u8) {
    if level == 0 {
        (80, 80, 80)
    } else if level == 1 {
        (0, 120, 0)
    } else if level == 2 {
        (0, 160, 0)
    } else if level == 3 {
        (0, 200, 0)
    } else {
        (0, 255, 0)
    }
}

/// The shade of a day with `value` contributions: none, 1-3, 4-7, 8-15, more.
pub fn contribution_level(value: u32) -> (level: u8)
    ensures
        level == level_of(value),
{
    if value == 0 {
        0
    } else if value <= 3 {
        1
    } else if value <= 7 {
        2
    } else if value <= 15 {
        3
    } else {
        4
    }
}

/// The colour in which a shade is drawn.
pub fn level_color(level: u8) -> (rgb: (u8, u8, u8))
    ensures
        rgb == level_color_of(level),
{
    match level {
        0 => (80, 80, 80),
        1 => (0, 120, 0),
        2 => (0, 160, 0),
        3 => (0, 200, 0),
        _ => (0, 255, 0),
    }
}

/// More contributions never give a lighter shade, and only a day without
/// contributions gets shade 0.
pub proof fn lemma_level_monotone(a: u32, b: u32)
    ensures
        a <= b ==> level_of(a) <= level_of(b),
        level_of(a) == 0 <==> a == 0,
        level_of(a) <= 4,
{
}

/// The shade of a day is the number of the thresholds 1, 4, 8 and 16 that
/// its count reaches.
pub proof fn lemma_level_thresholds(value: u32)
    ensures
        level_of(value) == (if value >= 1 { 1int } else { 0 }) + (if value >= 4 { 1int } else { 0 })
            + (if value >= 8 { 1int } else { 0 }) + (if value >= 16 { 1int } else { 0 }),
{
}

/// Shade 0 is grey; the other shades are pure green, brighter with each shade.
pub proof fn lemma_level_colors(a: u8, b: u8)
    ensures
        level_color_of(0).0 == level_color_of(0).1 && level_color_of(0).1 == level_color_of(0).2,
        1 <= a ==> level_color_of(a).0 == 0 && level_color_of(a).2 == 0,
        1 <= a < b <= 4 ==> level_color_of(a).1 < level_color_of(b).1,
        a >= 4 && b >= 4 ==> level_color_of(a) == level_color_of(b),
{
}

/// The label in front of a weekday's row: Monday, Wednesday and Friday are
/// named, the other rows get blanks of the same width.
pub open spec fn weekday_label_spec(day: usize) -> Seq<char> {
    if day == 1 {
        "Mon"@
    } else if day == 3 {
        "Wed"@
    } else if day == 5 {
        "Fri"@
    } else {
        "   "@
    }
}

/// The label of row `day` of the heatmap (0 is Sunday).
pub fn weekday_label(day: usize) -> (label: &'static str)
    ensures
        label@ == weekday_label_spec(day),
{
    match day {
        1 => "Mon",
        3 => "Wed",
        5 => "Fri",
        _ => "   ",
    }
}

/// `n` spaces.
pub open spec fn spaces(n: nat) -> Seq<char> {
    Seq::new(n, |i: int| ' ')
}

/// The three columns above a week: the month's name where the week's first
/// day falls in the month's first seven days, blanks otherwise.
pub open spec fn month_label_cell_spec(day_of_month: u32, label: Seq<char>, label_bytes: nat) -> Seq<char> {
    if day_of_month <= 7 {
        label + spaces((3 - label_bytes) as nat)
    } else {
        spaces(3)
    }
}

/// A week whose first day is among the first seven days of its month is
/// headed by the month's name, padded with spaces to three columns (counted
/// in bytes); any other week is headed by three spaces.
pub proof fn lemma_month_label_cell(day_of_month: u32, label: Seq<char>, label_bytes: nat)
    requires
        day_of_month <= 7 ==> label_bytes <= 3,
    ensures
        ({
            let cell = month_label_cell_spec(day_of_month, label, label_bytes);
            &&& day_of_month <= 7 ==> {
                &&& cell.len() == label.len() + 3 - label_bytes
                &&& cell.subrange(0, label.len() as int) == label
                &&& forall|i: int| label.len() <= i < cell.len() ==> #[trigger] cell[i] == ' '
            }
            &&& day_of_month > 7 ==> {
                &&& cell.len() == 3
                &&& forall|i: int| 0 <= i < 3 ==> #[trigger] cell[i] == ' '
            }
        }),
{
    let cell = month_label_cell_spec(day_of_month, label, label_bytes);
    if day_of_month <= 7 {
        assert(cell.subrange(0, label.len() as int) =~= label);
    }
}

/// The text above one week of the heatmap; `day_of_month` is the day of the
/// month of the week's first day and `label` the month's short name.
pub fn month_label_cell(day_of_month: u32, label: &str) -> (cell: String)
    requires
        day_of_month <= 7 ==> label.len() <= 3,
    ensures
        cell@ == month_label_cell_spec(day_of_month, label@, label.len() as nat),
        day_of_month <= 7 ==> cell@.subrange(0, label@.len() as int) == label@,
        day_of_month <= 7 ==> cell@.len() == label@.len() + 3 - label.len(),
        forall|i: int|
            (day_of_month <= 7 ==> label@.len() <= i) && 0 <= i < cell@.len() ==> #[trigger] cell@[i]
                == ' ',
        day_of_month > 7 ==> cell@.len() == 3,
{
    proof {
        lemma_month_label_cell(day_of_month, label@, label.len() as nat);
    }
    if day_of_month <= 7 {
        let mut cell = String::from_str(label);
        let pad = 3 - label.len();
        let mut i: usize = 0;
        while i < pad
            invariant
                0 <= i <= pad,
                pad == 3 - label.len(),
                cell@ == label@ + spaces(i as nat),
            decreases pad - i,
        {
            cell.append(" ");
            proof {
                reveal_strlit(" ");
            }
            assert(label@ + spaces((i + 1) as nat) =~= label@ + spaces(i as nat) + " "@);
            i = i + 1;
        }
        cell
    } else {
        proof {
            reveal_strlit("   ");
        }
        let cell = String::from_str("   ");
        assert(cell@ =~= spaces(3));
        cell
    }
}

/// Seconds in a week.
pub const WEEK_SECONDS: i64 = 604800;

/// How many weeks before now the heatmap starts.
pub const WEEKS_SHOWN: i64 = 52;

/// What `chrono` makes of the moment `seconds` after the Unix epoch, in UTC:
/// the day of the month and the month's name as `%b` formats it; `None`
/// where the moment lies outside the dates `chrono` represents. It depends
/// on the number alone.
pub uninterp spec fn utc_day_and_month(seconds: i64) -> Option<(u32, Seq<char>)>;

/// The day of the month and the short month name of a moment, through
/// `chrono::DateTime::from_timestamp`, `Datelike::day` and `format("%b")`.
/// Claims that the result is `utc_day_and_month` of the moment.
#[verifier::external_body]
fn day_and_month_at(seconds: i64) -> (date: Option<(u32, String)>)
    ensures
        match date {
            Some((day, month)) => utc_day_and_month(seconds) == Some((day, month@)),
            None => utc_day_and_month(seconds) is None,
        },
{
    match chrono::DateTime::from_timestamp(seconds, 0) {
        Some(moment) => Some((chrono::Datelike::day(&moment), moment.format("%b").to_string())),
        None => None,
    }
}

/// The header above the first `weeks` weeks of a heatmap that starts at
/// `start`: one three-column cell per week, for the week's first moment. It
/// is `None` where a moment cannot be represented, or where a month's name
/// that is shown does not fit in its three columns.
pub open spec fn month_header_from(start: int, weeks: nat) -> Option<Seq<char>>
    decreases weeks,
{
    if weeks == 0 {
        Some(Seq::<char>::empty())
    } else {
        match month_header_from(start, (weeks - 1) as nat) {
            None => None,
            Some(prefix) => {
                let moment = start + (weeks - 1) * WEEK_SECONDS;
                if moment < i64::MIN || moment > i64::MAX {
                    None
                } else {
                    match utc_day_and_month(moment as i64) {
                        None => None,
                        Some((day, month)) => {
                            let month_bytes = (encode_utf8(month).len() as usize) as nat;
                            if day <= 7 && month_bytes > 3 {
                                None
                            } else {
                                Some(prefix + month_label_cell_spec(day, month, month_bytes))
                            }
                        },
                    }
                }
            },
        }
    }
}

/// A header that cannot be made for some weeks cannot be made for more.
proof fn lemma_month_header_none_stays(start: int, weeks: nat, more: nat)
    requires
        weeks <= more,
        month_header_from(start, weeks) is None,
    ensures
        month_header_from(start, more) is None,
    decreases more,
{
    if weeks < more {
        lemma_month_header_none_stays(start, weeks, (more - 1) as nat);
    }
}

/// The month header of a heatmap of `weeks` weeks drawn at `now` (seconds
/// since the Unix epoch): it starts `WEEKS_SHOWN` weeks before now. `None`
/// where the start cannot be represented, or `month_header_from` is `None`.
pub open spec fn month_header_spec(now: i64, weeks: nat) -> Option<Seq<char>> {
    let start = now - WEEKS_SHOWN * WEEK_SECONDS;
    if start < i64::MIN || utc_day_and_month(start as i64) is None {
        None
    } else {
        month_header_from(start, weeks)
    }
}

/// The line of month names above the heatmap's weeks.
pub fn month_header(now: i64, weeks: usize) -> (header: Option<String>)
    ensures
        match header {
            Some(text) => month_header_spec(now, weeks as nat) == Some(text@),
            None => month_header_spec(now, weeks as nat) is None,
        },
{
    let start = match now.checked_sub(WEEKS_SHOWN * WEEK_SECONDS) {
        Some(s) => s,
        None => return None,
    };
    if day_and_month_at(start).is_none() {
        return None;
    }
    let mut header = String::new();
    let mut week: usize = 0;
    while week < weeks
        invariant
            0 <= week <= weeks,
            start == now - WEEKS_SHOWN * WEEK_SECONDS,
            utc_day_and_month(start) is Some,
            month_header_spec(now, week as nat) == Some(header@),
        decreases weeks - week,
    {
        let moment: i128 = start as i128 + (week as i128) * (WEEK_SECONDS as i128);
        if moment < i64::MIN as i128 || moment > i64::MAX as i128 {
            proof {
                lemma_month_header_none_stays(start as int, (week + 1) as nat, weeks as nat);
            }
            return None;
        }
        let (day, month) = match day_and_month_at(moment as i64) {
            Some(date) => date,
            None => {
                proof {
                    lemma_month_header_none_stays(start as int, (week + 1) as nat, weeks as nat);
                }
                return None;
            },
        };
        let label = month.as_str();
        if day <= 7 && label.len() > 3 {
            proof {
                lemma_month_header_none_stays(start as int, (week + 1) as nat, weeks as nat);
            }
            return None;
        }
        let cell = month_label_cell(day, label);
        header.append(cell.as_str());
        assert(moment as i64 == start + week * WEEK_SECONDS);
        week = week + 1;
    }
    Some(header)
}

/// The sum of a row of counts.
pub open spec fn row_sum(row: Seq<u32>) -> int
    decreases row.len(),
{
    if row.len() == 0 {
        0
    } else {
        row_sum(row.drop_last()) + row.last()
    }
}

/// The sum of every count in every row.
pub open spec fn matrix_sum(matrix: Seq<Vec<u32>>) -> int
    decreases matrix.len(),
{
    if matrix.len() == 0 {
        0
    } else {
        matrix_sum(matrix.drop_last()) + row_sum(matrix.last()@)
    }
}

proof fn lemma_row_sum_nonneg(row: Seq<u32>)
    ensures
        row_sum(row) >= 0,
    decreases row.len(),
{
    if row.len() > 0 {
        lemma_row_sum_nonneg(row.drop_last());
    }
}

proof fn lemma_row_sum_prefix_le(row: Seq<u32>, i: int)
    requires
        0 <= i <= row.len(),
    ensures
        row_sum(row.take(i)) <= row_sum(row),
    decreases row.len(),
{
    if i < row.len() {
        assert(row.drop_last().take(i) =~= row.take(i));
        lemma_row_sum_prefix_le(row.drop_last(), i);
    } else {
        assert(row.take(i) =~= row);
    }
}

proof fn lemma_matrix_sum_prefix_le(matrix: Seq<Vec<u32>>, i: int)
    requires
        0 <= i <= matrix.len(),
    ensures
        matrix_sum(matrix.take(i)) <= matrix_sum(matrix),
    decreases matrix.len(),
{
    if i < matrix.len() {
        assert(matrix.drop_last().take(i) =~= matrix.take(i));
        lemma_matrix_sum_prefix_le(matrix.drop_last(), i);
        lemma_row_sum_nonneg(matrix.last()@);
    } else {
        assert(matrix.take(i) =~= matrix);
    }
}

/// Row sums add up: no counts sum to 0, a single count to itself, and two
/// rows joined to the sum of their sums.
pub proof fn lemma_row_sum_additive(a: Seq<u32>, b: Seq<u32>)
    ensures
        row_sum(Seq::<u32>::empty()) == 0,
        forall|x: u32| #[trigger] row_sum(seq![x]) == x,
        row_sum(a + b) == row_sum(a) + row_sum(b),
    decreases b.len(),
{
    assert forall|x: u32| #[trigger] row_sum(seq![x]) == x by {
        assert(seq![x].drop_last() =~= Seq::<u32>::empty());
        assert(row_sum(Seq::<u32>::empty()) == 0);
        assert(seq![x].last() == x);
    }
    if b.len() == 0 {
        assert(a + b =~= a);
    } else {
        lemma_row_sum_additive(a, b.drop_last());
        assert((a + b).drop_last() =~= a + b.drop_last());
    }
}

/// Matrix sums add up: no rows sum to 0, a single row to its row sum, and
/// two matrices joined to the sum of their sums. With the row law this makes
/// the total the plain sum of all cells, each counted once.
pub proof fn lemma_matrix_sum_additive(a: Seq<Vec<u32>>, b: Seq<Vec<u32>>)
    ensures
        matrix_sum(Seq::<Vec<u32>>::empty()) == 0,
        forall|r: Vec<u32>| #[trigger] matrix_sum(seq![r]) == row_sum(r@),
        matrix_sum(a + b) == matrix_sum(a) + matrix_sum(b),
    decreases b.len(),
{
    assert forall|r: Vec<u32>| #[trigger] matrix_sum(seq![r]) == row_sum(r@) by {
        assert(seq![r].drop_last() =~= Seq::<Vec<u32>>::empty());
        assert(matrix_sum(Seq::<Vec<u32>>::empty()) == 0);
        assert(seq![r].last() == r);
    }
    if b.len() == 0 {
        assert(a + b =~= a);
    } else {
        lemma_matrix_sum_additive(a, b.drop_last());
        assert((a + b).drop_last() =~= a + b.drop_last());
    }
}

/// All contributions in the matrix, or `None` where the sum does not fit in a `u32`.
pub fn checked_total_contributions(matrix: &[Vec<u32>]) -> (total: Option<u32>)
    ensures
        match total {
            Some(t) => t == matrix_sum(matrix@),
            None => matrix_sum(matrix@) > u32::MAX,
        },
{
    let mut total: u32 = 0;
    let mut r: usize = 0;
    while r < matrix.len()
        invariant
            0 <= r <= matrix@.len(),
            total == matrix_sum(matrix@.take(r as int)),
        decreases matrix@.len() - r,
    {
        let row = &matrix[r];
        let ghost before = total as int;
        assert(matrix@.take(r + 1).drop_last() =~= matrix@.take(r as int));
        let mut c: usize = 0;
        while c < row.len()
            invariant
                0 <= c <= row@.len(),
                r < matrix@.len(),
                row == matrix@[r as int],
                before == matrix_sum(matrix@.take(r as int)),
                total == before + row_sum(row@.take(c as int)),
            decreases row@.len() - c,
        {
            assert(row@.take(c + 1).drop_last() =~= row@.take(c as int));
            match total.checked_add(row[c]) {
                Some(t) => {
                    total = t;
                },
                None => {
                    proof {
                        lemma_row_sum_prefix_le(row@, c + 1);
                        lemma_matrix_sum_prefix_le(matrix@, r + 1);
                        assert(matrix@.take(r + 1).drop_last() =~= matrix@.take(r as int));
                        assert(matrix@.take(r + 1).last() == row);
                        assert(matrix_sum(matrix@.take(r + 1)) == before + row_sum(row@));
                    }
                    return None;
                },
            }
            c = c + 1;
        }
        assert(row@.take(c as int) =~= row@);
        r = r + 1;
    }
    assert(matrix@.take(r as int) =~= matrix@);
    Some(total)
}

/// All contributions in the matrix (the heatmap's headline figure).
pub fn total_contributions(matrix: &[Vec<u32>]) -> (total: u32)
    requires
        matrix_sum(matrix@) <= u32::MAX,
    ensures
        total == matrix_sum(matrix@),
{
    match checked_total_contributions(matrix) {
        Some(t) => t,
        None => {
            // the sum fits, so the checked sum cannot have overflowed
            proof {
                assert(false);
            }
            0
        },
    }
}

/// How many weeks the heatmap spans: the length of its first row.
pub open spec fn weeks_of(matrix: Seq<Vec<u32>>) -> int {
    if matrix.len() == 0 {
        0
    } else {
        matrix[0]@.len() as int
    }
}

/// The count of weekday `day` in week `week`; 0 outside the matrix.
pub open spec fn cell(matrix: Seq<Vec<u32>>, week: int, day: int) -> u32 {
    if 0 <= day < matrix.len() && 0 <= week < matrix[day]@.len() {
        matrix[day]@[week]
    } else {
        0
    }
}

/// The days in calendar order: week by week, each week's seven weekdays.
pub open spec fn days_in_order(matrix: Seq<Vec<u32>>) -> Seq<u32> {
    Seq::new((weeks_of(matrix) * 7) as nat, |p: int| cell(matrix, p / 7, p % 7))
}

/// Days `i` up to (not including) `j` all have contributions.
pub open spec fn positive_run(days: Seq<u32>, i: int, j: int) -> bool {
    &&& 0 <= i <= j <= days.len()
    &&& forall|k: int| i <= k < j ==> #[trigger] days[k] > 0
}

/// `len` is the length of the longest run of days with contributions.
pub open spec fn is_longest_run(days: Seq<u32>, len: int) -> bool {
    &&& exists|i: int, j: int| #[trigger] positive_run(days, i, j) && j - i == len
    &&& forall|i: int, j: int| #[trigger] positive_run(days, i, j) ==> j - i <= len
}

/// `len` is the length of the last run of days with contributions (days
/// without any at the very end are passed over); 0 where no day has any.
pub open spec fn is_last_run(days: Seq<u32>, len: int) -> bool {
    if len == 0 {
        forall|k: int| 0 <= k < days.len() ==> #[trigger] days[k] == 0
    } else {
        exists|b: int, e: int|
            {
                &&& #[trigger] positive_run(days, b, e)
                &&& e - b == len
                &&& (b == 0 || days[b - 1] == 0)
                &&& forall|k: int| e <= k < days.len() ==> #[trigger] days[k] == 0
            }
    }
}

fn cell_exec(matrix: &[Vec<u32>], week: usize, day: usize) -> (v: u32)
    ensures
        v == cell(matrix@, week as int, day as int),
{
    if day < matrix.len() && week < matrix[day].len() {
        matrix[day][week]
    } else {
        0
    }
}

fn weeks_exec(matrix: &[Vec<u32>]) -> (weeks: usize)
    ensures
        weeks == weeks_of(matrix@),
{
    if matrix.len() == 0 {
        0
    } else {
        matrix[0].len()
    }
}

/// The longest streak: the most days in a row, in calendar order, with contributions.
pub fn longest_streak(matrix: &[Vec<u32>]) -> (longest: usize)
    requires
        weeks_of(matrix@) * 7 <= usize::MAX,
    ensures
        is_longest_run(days_in_order(matrix@), longest as int),
{
    let ghost days = days_in_order(matrix@);
    let n = weeks_exec(matrix) * 7;
    let mut longest: usize = 0;
    let mut running: usize = 0;
    let mut p: usize = 0;
    assert(positive_run(days, 0, 0));
    while p < n
        invariant
            n == days.len(),
            days == days_in_order(matrix@),
            0 <= p <= n,
            running <= p,
            longest <= p,
            positive_run(days, p - running, p as int),
            running < p ==> days[p - running - 1] == 0,
            exists|i: int, j: int| #[trigger] positive_run(days, i, j) && j - i == longest,
            forall|i: int, j: int|
                #[trigger] positive_run(days, i, j) && j <= p ==> j - i <= longest,
        decreases n - p,
    {
        let v = cell_exec(matrix, p / 7, p % 7);
        assert(v == days[p as int]);
        let ghost old_running = running as int;
        if v > 0 {
            running = running + 1;
            if running > longest {
                longest = running;
                assert(positive_run(days, p + 1 - running, p + 1));
            }
            assert forall|i: int, j: int|
                #[trigger] positive_run(days, i, j) && j <= p + 1 implies j - i <= longest by {
                if j == p + 1 && i < j {
                    assert(positive_run(days, i, p as int));
                    if i < p - old_running {
                        assert(days[p - old_running - 1] > 0);
                    }
                }
            }
        } else {
            running = 0;
            assert forall|i: int, j: int|
                #[trigger] positive_run(days, i, j) && j <= p + 1 implies j - i <= longest by {
                if j == p + 1 && i < j {
                    assert(days[p as int] > 0);
                }
            }
        }
        p = p + 1;
    }
    longest
}

/// The current streak: walking back from the last day, days without
/// contributions are passed over until one has some; from there the days in
/// a row with contributions are counted.
pub fn current_streak(matrix: &[Vec<u32>]) -> (current: usize)
    requires
        weeks_of(matrix@) * 7 <= usize::MAX,
    ensures
        is_last_run(days_in_order(matrix@), current as int),
{
    let ghost days = days_in_order(matrix@);
    let n = weeks_exec(matrix) * 7;
    let mut current: usize = 0;
    let mut q: usize = n;
    while q > 0
        invariant
            n == days.len(),
            days == days_in_order(matrix@),
            0 <= q <= n,
            current == 0 ==> forall|k: int| q <= k < n ==> #[trigger] days[k] == 0,
            current > 0 ==> {
                &&& q + current <= n
                &&& positive_run(days, q as int, q + current)
                &&& forall|k: int| q + current <= k < n ==> #[trigger] days[k] == 0
            },
        decreases q,
    {
        let p = q - 1;
        let v = cell_exec(matrix, p / 7, p % 7);
        assert(v == days[p as int]);
        if v > 0 {
            current = current + 1;
        } else if current > 0 {
            assert(positive_run(days, q as int, q + current));
            return current;
        }
        q = p;
    }
    if current > 0 {
        assert(positive_run(days, 0, current as int));
    }
    current
}

/// Day `d` of week `w` stands at place `7 w + d` of the days in order: it is
/// the matrix's cell in row `d`, column `w`, or 0 where the matrix lacks it;
/// there are seven days for each column of the first row.
pub proof fn lemma_days_in_order_cells(matrix: Seq<Vec<u32>>)
    ensures
        days_in_order(matrix).len() == if matrix.len() == 0 { 0 } else { matrix[0]@.len() * 7 },
        forall|w: int, d: int|
            0 <= d < 7 && 0 <= w && w * 7 + d < days_in_order(matrix).len() ==> #[trigger] days_in_order(
                matrix,
            )[w * 7 + d] == if d < matrix.len() && w < matrix[d]@.len() {
                matrix[d]@[w]
            } else {
                0
            },
{
    assert forall|w: int, d: int|
        0 <= d < 7 && 0 <= w && w * 7 + d < days_in_order(matrix).len() implies #[trigger] days_in_order(
            matrix,
        )[w * 7 + d] == if d < matrix.len() && w < matrix[d]@.len() {
            matrix[d]@[w]
        } else {
            0
        } by {
        let p = w * 7 + d;
        assert(p / 7 == w && p % 7 == d) by (nonlinear_arith)
            requires
                0 <= d < 7,
                p == w * 7 + d,
        ;
    }
}

/// Only one length is the longest run.
pub proof fn lemma_longest_run_unique(days: Seq<u32>, len1: int, len2: int)
    requires
        is_longest_run(days, len1),
        is_longest_run(days, len2),
    ensures
        len1 == len2,
{
    let (i1, j1) = choose|i: int, j: int| #[trigger] positive_run(days, i, j) && j - i == len1;
    let (i2, j2) = choose|i: int, j: int| #[trigger] positive_run(days, i, j) && j - i == len2;
    assert(positive_run(days, i1, j1));
    assert(positive_run(days, i2, j2));
}

/// Where every day has contributions, both streaks span all the days; where
/// none has, both are 0.
pub proof fn lemma_streaks_all_or_nothing(days: Seq<u32>)
    ensures
        (forall|k: int| 0 <= k < days.len() ==> #[trigger] days[k] > 0) ==> is_longest_run(
            days,
            days.len() as int,
        ) && is_last_run(days, days.len() as int),
        (forall|k: int| 0 <= k < days.len() ==> #[trigger] days[k] == 0) ==> is_longest_run(days, 0)
            && is_last_run(days, 0),
{
    if forall|k: int| 0 <= k < days.len() ==> #[trigger] days[k] > 0 {
        assert(positive_run(days, 0, days.len() as int));
        if days.len() == 0 {
            assert forall|k: int| 0 <= k < days.len() implies #[trigger] days[k] == 0 by {}
        }
    }
    if forall|k: int| 0 <= k < days.len() ==> #[trigger] days[k] == 0 {
        assert(positive_run(days, 0, 0));
        assert forall|i: int, j: int| #[trigger] positive_run(days, i, j) implies j - i <= 0 by {
            if i < j {
                assert(days[i] > 0);
            }
        }
    }
}

/// One more day at the end: a day without contributions leaves both streaks
/// as they were, except that it ends the current run; a day with
/// contributions extends the current streak when the days so far end with
/// contributions, and starts a new one of 1 otherwise.
pub proof fn lemma_streaks_one_more_day(days: Seq<u32>, x: u32, current: int, longest: int)
    requires
        is_last_run(days, current),
        is_longest_run(days, longest),
    ensures
        x == 0 ==> is_last_run(days.push(x), current) && is_longest_run(days.push(x), longest),
        x > 0 ==> is_last_run(
            days.push(x),
            if days.len() > 0 && days.last() > 0 { current + 1 } else { 1 },
        ),
{
    let more = days.push(x);
    assert forall|i: int, j: int| positive_run(days, i, j) implies #[trigger] positive_run(more, i, j) by {
        assert forall|k: int| i <= k < j implies #[trigger] more[k] > 0 by {
            assert(days[k] > 0);
        }
    }
    if x == 0 {
        let (i0, j0) = choose|i: int, j: int| #[trigger] positive_run(days, i, j) && j - i == longest;
        assert(positive_run(more, i0, j0));
        assert forall|i: int, j: int| #[trigger] positive_run(more, i, j) implies j - i <= longest by {
            if j == more.len() && i < j {
                assert(more[j - 1] > 0);
            } else if i < j {
                assert forall|k: int| i <= k < j implies #[trigger] days[k] > 0 by {
                    assert(more[k] > 0);
                }
                assert(positive_run(days, i, j));
            }
        }
        if current == 0 {
            assert forall|k: int| 0 <= k < more.len() implies #[trigger] more[k] == 0 by {
                if k < days.len() {
                    assert(days[k] == 0);
                }
            }
        } else {
            let (b, e) = choose|b: int, e: int|
                {
                    &&& #[trigger] positive_run(days, b, e)
                    &&& e - b == current
                    &&& (b == 0 || days[b - 1] == 0)
                    &&& forall|k: int| e <= k < days.len() ==> #[trigger] days[k] == 0
                };
            assert(positive_run(more, b, e));
            if b != 0 {
                assert(more[b - 1] == days[b - 1]);
            }
            assert forall|k: int| e <= k < more.len() implies #[trigger] more[k] == 0 by {
                if k < days.len() {
                    assert(days[k] == 0);
                }
            }
        }
    } else {
        let n = days.len() as int;
        if n > 0 && days.last() > 0 {
            // the current run ends on the last day, so it now reaches the new one
            if current == 0 {
                assert(days[n - 1] == 0);
            }
            let (b, e) = choose|b: int, e: int|
                {
                    &&& #[trigger] positive_run(days, b, e)
                    &&& e - b == current
                    &&& (b == 0 || days[b - 1] == 0)
                    &&& forall|k: int| e <= k < days.len() ==> #[trigger] days[k] == 0
                };
            if e < n {
                assert(days[n - 1] == 0);
            }
            assert forall|k: int| b <= k < n + 1 implies #[trigger] more[k] > 0 by {
                if k < n {
                    assert(days[k] > 0);
                }
            }
            assert(positive_run(more, b, n + 1));
            if b != 0 {
                assert(more[b - 1] == days[b - 1]);
            }
        } else {
            assert(positive_run(more, n, n + 1));
        }
    }
}

/// The current streak is never longer than the longest streak.
pub proof fn lemma_current_le_longest(matrix: Seq<Vec<u32>>, current: int, longest: int)
    requires
        is_last_run(days_in_order(matrix), current),
        is_longest_run(days_in_order(matrix), longest),
    ensures
        0 <= current <= longest,
{
    let days = days_in_order(matrix);
    let (i, j) = choose|i: int, j: int| #[trigger] positive_run(days, i, j) && j - i == longest;
    if current != 0 {
        let (b, e) = choose|b: int, e: int|
            {
                &&& #[trigger] positive_run(days, b, e)
                &&& e - b == current
                &&& (b == 0 || days[b - 1] == 0)
                &&& forall|k: int| e <= k < days.len() ==> #[trigger] days[k] == 0
            };
        assert(positive_run(days, b, e));
    }
}

proof fn lemma_row_sum_zero(row: Seq<u32>)
    requires
        row_sum(row) == 0,
    ensures
        forall|k: int| 0 <= k < row.len() ==> #[trigger] row[k] == 0,
    decreases row.len(),
{
    if row.len() > 0 {
        lemma_row_sum_nonneg(row.drop_last());
        lemma_row_sum_zero(row.drop_last());
        assert forall|k: int| 0 <= k < row.len() implies #[trigger] row[k] == 0 by {
            if k < row.len() - 1 {
                assert(row[k] == row.drop_last()[k]);
            }
        }
    }
}

proof fn lemma_matrix_sum_zero(matrix: Seq<Vec<u32>>)
    requires
        matrix_sum(matrix) == 0,
    ensures
        forall|d: int, w: int|
            0 <= d < matrix.len() && 0 <= w < matrix[d]@.len() ==> #[trigger] matrix[d]@[w] == 0,
    decreases matrix.len(),
{
    if matrix.len() > 0 {
        lemma_matrix_sum_prefix_le(matrix, matrix.len() - 1);
        assert(matrix.take(matrix.len() - 1) =~= matrix.drop_last());
        lemma_row_sum_nonneg(matrix.last()@);
        lemma_matrix_sum_nonneg(matrix.drop_last());
        lemma_matrix_sum_zero(matrix.drop_last());
        lemma_row_sum_zero(matrix.last()@);
        assert forall|d: int, w: int|
            0 <= d < matrix.len() && 0 <= w < matrix[d]@.len() implies #[trigger] matrix[d]@[w]
                == 0 by {
            if d < matrix.len() - 1 {
                assert(matrix[d] == matrix.drop_last()[d]);
            }
        }
    }
}

proof fn lemma_matrix_sum_nonneg(matrix: Seq<Vec<u32>>)
    ensures
        matrix_sum(matrix) >= 0,
    decreases matrix.len(),
{
    if matrix.len() > 0 {
        lemma_matrix_sum_nonneg(matrix.drop_last());
        lemma_row_sum_nonneg(matrix.last()@);
    }
}

/// A streak never spans more days than the heatmap shows; and where the
/// heatmap holds no contributions at all, both streaks are 0.
pub proof fn lemma_streaks_bounded(matrix: Seq<Vec<u32>>, current: int, longest: int)
    requires
        is_last_run(days_in_order(matrix), current),
        is_longest_run(days_in_order(matrix), longest),
    ensures
        0 <= current <= longest <= weeks_of(matrix) * 7,
        matrix_sum(matrix) == 0 ==> current == 0 && longest == 0,
{
    let days = days_in_order(matrix);
    lemma_current_le_longest(matrix, current, longest);
    let (i, j) = choose|i: int, j: int| #[trigger] positive_run(days, i, j) && j - i == longest;
    if matrix_sum(matrix) == 0 {
        lemma_matrix_sum_zero(matrix);
        if longest > 0 {
            assert(days[i] > 0);
            assert(days[i] == cell(matrix, i / 7, i % 7));
        }
    }
}

/// The heatmap shows the calendar as fetched: its days, in order, are the
/// calendar's weeks one after another, each week's days in order, a day
/// missing from a week counting as none.
pub proof fn lemma_heatmap_follows_calendar(weeks: Seq<Week>, matrix: Seq<Vec<u32>>)
    requires
        is_calendar_matrix(weeks, matrix),
    ensures
        weeks_of(matrix) == weeks.len(),
        days_in_order(matrix).len() == weeks.len() * 7,
        forall|w: int, d: int|
            0 <= w < weeks.len() && 0 <= d < 7 ==> #[trigger] days_in_order(matrix)[w * 7 + d]
                == day_count(weeks, w, d),
{
    assert(matrix[0]@.len() == weeks.len());
    assert forall|w: int, d: int| 0 <= w < weeks.len() && 0 <= d < 7 implies #[trigger] days_in_order(
        matrix,
    )[w * 7 + d] == day_count(weeks, w, d) by {
        let p = w * 7 + d;
        assert(0 <= p < weeks.len() * 7) by (nonlinear_arith)
            requires
                0 <= w < weeks.len(),
                0 <= d < 7,
                p == w * 7 + d,
        ;
        assert(p / 7 == w && p % 7 == d) by (nonlinear_arith)
            requires
                0 <= d < 7,
                p == w * 7 + d,
        ;
        assert(matrix[d]@[w] == day_count(weeks, w, d));
    }
}

/// Two day sequences of the same length that agree on which days have contributions.
pub open spec fn same_active_days(days1: Seq<u32>, days2: Seq<u32>) -> bool {
    &&& days1.len() == days2.len()
    &&& forall|k: int| 0 <= k < days1.len() ==> (#[trigger] days1[k] > 0) == (days2[k] > 0)
}

proof fn lemma_runs_agree(days1: Seq<u32>, days2: Seq<u32>)
    requires
        same_active_days(days1, days2),
    ensures
        forall|i: int, j: int| #[trigger] positive_run(days1, i, j) == positive_run(days2, i, j),
{
    assert forall|i: int, j: int| #[trigger] positive_run(days1, i, j) == positive_run(days2, i, j) by {
        if positive_run(days1, i, j) {
            assert forall|k: int| i <= k < j implies #[trigger] days2[k] > 0 by {
                assert(days1[k] > 0);
            }
        }
        if positive_run(days2, i, j) {
            assert forall|k: int| i <= k < j implies #[trigger] days1[k] > 0 by {
                assert(days2[k] > 0);
            }
        }
    }
}

proof fn lemma_last_run_transfer(days1: Seq<u32>, days2: Seq<u32>, len: int)
    requires
        same_active_days(days1, days2),
        is_last_run(days1, len),
    ensures
        is_last_run(days2, len),
{
    lemma_runs_agree(days1, days2);
    if len == 0 {
        assert forall|k: int| 0 <= k < days2.len() implies #[trigger] days2[k] == 0 by {
            assert(days1[k] == 0);
        }
    } else {
        let (b, e) = choose|b: int, e: int|
            {
                &&& #[trigger] positive_run(days1, b, e)
                &&& e - b == len
                &&& (b == 0 || days1[b - 1] == 0)
                &&& forall|k: int| e <= k < days1.len() ==> #[trigger] days1[k] == 0
            };
        assert(positive_run(days2, b, e));
        if b != 0 {
            assert(days1[b - 1] == 0);
            assert(days2[b - 1] == 0);
        }
        assert forall|k: int| e <= k < days2.len() implies #[trigger] days2[k] == 0 by {
            assert(days1[k] == 0);
        }
    }
}

proof fn lemma_last_run_unique(days: Seq<u32>, len1: int, len2: int)
    requires
        is_last_run(days, len1),
        is_last_run(days, len2),
    ensures
        len1 == len2,
{
    if len1 != 0 && len2 != 0 {
        let (b1, e1) = choose|b: int, e: int|
            {
                &&& #[trigger] positive_run(days, b, e)
                &&& e - b == len1
                &&& (b == 0 || days[b - 1] == 0)
                &&& forall|k: int| e <= k < days.len() ==> #[trigger] days[k] == 0
            };
        let (b2, e2) = choose|b: int, e: int|
            {
                &&& #[trigger] positive_run(days, b, e)
                &&& e - b == len2
                &&& (b == 0 || days[b - 1] == 0)
                &&& forall|k: int| e <= k < days.len() ==> #[trigger] days[k] == 0
            };
        assert(positive_run(days, b1, e1));
        assert(positive_run(days, b2, e2));
        if len1 < 0 || len2 < 0 {
        } else {
            // both runs end at the last day with contributions
            if e1 < e2 {
                assert(days[e2 - 1] > 0);
            } else if e2 < e1 {
                assert(days[e1 - 1] > 0);
            }
            // and start right after the last day before it without any
            if b1 < b2 {
                assert(days[b2 - 1] > 0);
            } else if b2 < b1 {
                assert(days[b1 - 1] > 0);
            }
        }
    } else if len1 == 0 && len2 != 0 {
        let (b, e) = choose|b: int, e: int|
            {
                &&& #[trigger] positive_run(days, b, e)
                &&& e - b == len2
                &&& (b == 0 || days[b - 1] == 0)
                &&& forall|k: int| e <= k < days.len() ==> #[trigger] days[k] == 0
            };
        assert(positive_run(days, b, e));
        if b < e {
            assert(days[b] > 0);
        }
    } else if len1 != 0 && len2 == 0 {
        let (b, e) = choose|b: int, e: int|
            {
                &&& #[trigger] positive_run(days, b, e)
                &&& e - b == len1
                &&& (b == 0 || days[b - 1] == 0)
                &&& forall|k: int| e <= k < days.len() ==> #[trigger] days[k] == 0
            };
        assert(positive_run(days, b, e));
        if b < e {
            assert(days[b] > 0);
        }
    }
}

/// Only whether a day has contributions matters to the streaks: two heatmaps
/// of the same shape whose days agree on which have contributions have the
/// same current streak and the same longest streak.
pub proof fn lemma_streaks_depend_on_active_days(
    matrix1: Seq<Vec<u32>>,
    matrix2: Seq<Vec<u32>>,
    current1: int,
    longest1: int,
    current2: int,
    longest2: int,
)
    requires
        matrix1.len() == matrix2.len(),
        forall|d: int| 0 <= d < matrix1.len() ==> (#[trigger] matrix1[d])@.len() == matrix2[d]@.len(),
        forall|d: int, w: int|
            0 <= d < matrix1.len() && 0 <= w < matrix1[d]@.len() ==> (#[trigger] matrix1[d]@[w] > 0)
                == (matrix2[d]@[w] > 0),
        is_last_run(days_in_order(matrix1), current1),
        is_longest_run(days_in_order(matrix1), longest1),
        is_last_run(days_in_order(matrix2), current2),
        is_longest_run(days_in_order(matrix2), longest2),
    ensures
        current1 == current2,
        longest1 == longest2,
{
    let days1 = days_in_order(matrix1);
    let days2 = days_in_order(matrix2);
    if matrix1.len() > 0 {
        assert(matrix1[0]@.len() == matrix2[0]@.len());
    }
    assert forall|k: int| 0 <= k < days1.len() implies (#[trigger] days1[k] > 0) == (days2[k] > 0) by {
        let (w, d) = (k / 7, k % 7);
        if 0 <= d < matrix1.len() && 0 <= w < matrix1[d]@.len() {
            assert((matrix1[d]@[w] > 0) == (matrix2[d]@[w] > 0));
        }
    }
    lemma_runs_agree(days1, days2);
    let (i1, j1) = choose|i: int, j: int| #[trigger] positive_run(days1, i, j) && j - i == longest1;
    let (i2, j2) = choose|i: int, j: int| #[trigger] positive_run(days2, i, j) && j - i == longest2;
    assert(positive_run(days2, i1, j1));
    assert(positive_run(days1, i2, j2));
    lemma_last_run_transfer(days1, days2, current1);
    lemma_last_run_unique(days2, current1, current2);
}

} // verus!
