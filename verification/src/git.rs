use vstd::prelude::*;
use crate::text::{
    before_first, chars_of, find_from, find_text, has_prefix, skip_chars, split_lines,
    starts_with_chars, string_from_chars, text_before, text_lines, line_views, trim_chars,
    trimmed,
};

verus! {

/// What the status line of a working tree shows: its branch, how many paths changed, and the
/// lines added and removed against `HEAD`.
#[derive(Clone, Debug, PartialEq, Eq)]
pub struct GitStatus {
    pub branch: String,
    pub changed_files: usize,
    pub additions: usize,
    pub deletions: usize,
}

/// A `GitStatus` as plain values.
pub struct GitStatusView {
    pub branch: Seq<char>,
    pub changed_files: nat,
    pub additions: nat,
    pub deletions: nat,
}

impl GitStatus {
    pub open spec fn view(&self) -> GitStatusView {
        GitStatusView {
            branch: self.branch@,
            changed_files: self.changed_files as nat,
            additions: self.additions as nat,
            deletions: self.deletions as nat,
        }
    }
}

pub open spec fn is_digit(c: char) -> bool {
    '0' <= c <= '9'
}

/// The value of a string of decimal digits.
pub open spec fn digits_value(digits: Seq<char>) -> nat
    decreases digits.len(),
{
    if digits.len() == 0 {
        0
    } else {
        digits_value(digits.drop_last()) * 10 + ((digits.last() as u32) - ('0' as u32)) as nat
    }
}

/// The digits of an unsigned number as `usize::from_str` reads them: one leading `+` is allowed.
pub open spec fn unsigned_digits(text: Seq<char>) -> Seq<char> {
    if text.len() > 0 && text[0] == '+' {
        text.drop_first()
    } else {
        text
    }
}

/// What `text.parse::<usize>()` gives: the value where the text is an optional `+` and one or
/// more decimal digits whose value fits in `usize`, and nothing otherwise.
pub open spec fn parsed_usize(text: Seq<char>) -> Option<nat> {
    let digits = unsigned_digits(text);
    if digits.len() > 0 && (forall|i: int| 0 <= i < digits.len() ==> is_digit(#[trigger] digits[i]))
        && digits_value(digits) <= usize::MAX {
        Some(digits_value(digits))
    } else {
        None
    }
}

proof fn lemma_digits_value_grows(digits: Seq<char>, count: int)
    requires
        0 <= count <= digits.len(),
        forall|i: int| 0 <= i < digits.len() ==> is_digit(#[trigger] digits[i]),
    ensures
        digits_value(digits.take(count)) <= digits_value(digits),
    decreases digits.len(),
{
    if count < digits.len() {
        let shorter = digits.drop_last();
        assert(shorter.take(count) =~= digits.take(count));
        assert forall|i: int| 0 <= i < shorter.len() implies is_digit(#[trigger] shorter[i]) by {
            assert(shorter[i] == digits[i]);
        }
        lemma_digits_value_grows(shorter, count);
    } else {
        assert(digits.take(count) =~= digits);
    }
}

/// Reads an unsigned number as `usize::from_str` does.
pub fn parse_usize(text: &Vec<char>) -> (value: Option<usize>)
    ensures
        match value {
            Some(v) => parsed_usize(text@) == Some(v as nat),
            None => parsed_usize(text@) is None,
        },
{
    let start: usize = if text.len() > 0 && text[0] == '+' {
        1
    } else {
        0
    };
    let ghost digits = unsigned_digits(text@);
    proof {
        assert(digits =~= text@.skip(start as int));
    }
    if start >= text.len() {
        proof {
            assert(digits.len() == 0);
        }
        return None;
    }
    let mut total: usize = 0;
    let mut index: usize = start;
    while index < text.len()
        invariant
            start <= index <= text@.len(),
            digits == text@.skip(start as int),
            digits == unsigned_digits(text@),
            forall|i: int| 0 <= i < index - start ==> is_digit(#[trigger] digits[i]),
            total as nat == digits_value(digits.take(index - start)),
        decreases text@.len() - index,
    {
        let c = text[index];
        if !('0' <= c && c <= '9') {
            proof {
                assert(digits[index - start] == c);
                assert(!is_digit(digits[index - start]));
            }
            return None;
        }
        let d = (c as u32 - '0' as u32) as usize;
        proof {
            assert(digits.take(index - start + 1).drop_last() =~= digits.take(index - start));
            assert(digits.take(index - start + 1).last() == c);
        }
        match total.checked_mul(10) {
            None => {
                proof {
                    assert(digits_value(digits.take(index - start + 1)) > usize::MAX);
                    if forall|i: int| 0 <= i < digits.len() ==> is_digit(#[trigger] digits[i]) {
                        lemma_digits_value_grows(digits, index - start + 1);
                    }
                }
                return None;
            },
            Some(tens) => match tens.checked_add(d) {
                None => {
                    proof {
                        assert(digits_value(digits.take(index - start + 1)) > usize::MAX);
                        if forall|i: int| 0 <= i < digits.len() ==> is_digit(#[trigger] digits[i]) {
                            lemma_digits_value_grows(digits, index - start + 1);
                        }
                    }
                    return None;
                },
                Some(next) => {
                    total = next;
                },
            },
        }
        index += 1;
    }
    proof {
        assert(digits.take(index - start) =~= digits);
    }
    Some(total)
}

/// The first two tab-separated fields of a `git diff --numstat` line, read as numbers; a field
/// that is missing or is not a number (as `-` for a binary file) counts as zero.
pub open spec fn numstat_field(line: Seq<char>, column: int) -> nat {
    let tab = find_from(line, seq!['\t'], 0);
    let field = if column == 0 {
        Some(before_first(line, seq!['\t']))
    } else if tab < line.len() {
        Some(before_first(line.skip(tab + 1), seq!['\t']))
    } else {
        None
    };
    match field {
        Some(f) => match parsed_usize(f) {
            Some(v) => v,
            None => 0,
        },
        None => 0,
    }
}

/// The sum of one numstat column over the lines.
pub open spec fn numstat_total(lines: Seq<Seq<char>>, column: int) -> nat
    decreases lines.len(),
{
    if lines.len() == 0 {
        0
    } else {
        numstat_total(lines.drop_last(), column) + numstat_field(lines.last(), column)
    }
}

proof fn lemma_numstat_total_grows(lines: Seq<Seq<char>>, column: int, count: int)
    requires
        0 <= count <= lines.len(),
    ensures
        numstat_total(lines.take(count), column) <= numstat_total(lines, column),
    decreases lines.len(),
{
    if count < lines.len() {
        assert(lines.drop_last().take(count) =~= lines.take(count));
        lemma_numstat_total_grows(lines.drop_last(), column, count);
    } else {
        assert(lines.take(count) =~= lines);
    }
}

/// The text `No commits yet on `, which git writes before the branch of an empty repository.
pub open spec fn no_commits_prefix() -> Seq<char> {
    "No commits yet on "@
}

/// The branch named by the status header (the header without its `## `): on a detached head the
/// short commit that was read, or `detached`; else the branch before any upstream (`...`) or
/// ahead/behind (` [`) part, trimmed.
pub open spec fn branch_of(header: Seq<char>, detached_head: Option<Seq<char>>) -> Seq<char> {
    if has_prefix(header, "HEAD "@) {
        trimmed(
            match detached_head {
                Some(head) => head,
                None => "detached"@,
            },
        )
    } else {
        let name = if has_prefix(header, no_commits_prefix()) {
            header.skip(no_commits_prefix().len() as int)
        } else {
            header
        };
        trimmed(before_first(before_first(name, "..."@), " ["@))
    }
}

/// Whether a status report starts with a `## ` header line.
pub open spec fn has_status_header(status: Seq<char>) -> bool {
    text_lines(status).len() > 0 && has_prefix(text_lines(status)[0], "## "@)
}

/// Whether the numstat columns sum to values that fit in `usize` wherever they are summed: the
/// inputs on which `parse_git_status` runs to completion.
pub open spec fn git_status_fits(status: Seq<char>, numstat: Seq<char>) -> bool {
    has_status_header(status) ==> numstat_total(text_lines(numstat), 0) <= usize::MAX
        && numstat_total(text_lines(numstat), 1) <= usize::MAX
}

/// What `git status --porcelain=v1 --branch` and `git diff --numstat HEAD` say of a working
/// tree: nothing where the status does not start with a `## ` header line; else the branch of the
/// header, one changed path per further line, and the numstat columns summed.
pub open spec fn git_status_of(
    status: Seq<char>,
    numstat: Seq<char>,
    detached_head: Option<Seq<char>>,
) -> Option<GitStatusView> {
    let lines = text_lines(status);
    if has_status_header(status) {
        Some(
            GitStatusView {
                branch: branch_of(lines[0].skip(3), detached_head),
                changed_files: (lines.len() - 1) as nat,
                additions: numstat_total(text_lines(numstat), 0),
                deletions: numstat_total(text_lines(numstat), 1),
            },
        )
    } else {
        None
    }
}

/// The characters of an optional text.
pub open spec fn optional_text(text: Option<&str>) -> Option<Seq<char>> {
    match text {
        Some(t) => Some(t@),
        None => None,
    }
}

fn numstat_value(line: &Vec<char>, column: usize) -> (value: usize)
    requires
        column <= 1,
    ensures
        value as nat == numstat_field(line@, column as int),
{
    let tab: Vec<char> = vec!['\t'];
    proof {
        assert(tab@ =~= seq!['\t']);
    }
    let field = if column == 0 {
        Some(text_before(line, &tab))
    } else {
        let position = find_text(line, &tab);
        if position < line.len() {
            let rest = skip_chars(line, position + 1);
            Some(text_before(&rest, &tab))
        } else {
            None
        }
    };
    match field {
        Some(f) => match parse_usize(&f) {
            Some(v) => v,
            None => 0,
        },
        None => 0,
    }
}

fn numstat_sum(lines: &Vec<Vec<char>>, column: usize) -> (total: usize)
    requires
        column <= 1,
        numstat_total(line_views(lines@), column as int) <= usize::MAX,
    ensures
        total as nat == numstat_total(line_views(lines@), column as int),
{
    let ghost all = line_views(lines@);
    let mut total: usize = 0;
    let mut index: usize = 0;
    while index < lines.len()
        invariant
            column <= 1,
            all == line_views(lines@),
            index <= lines@.len(),
            numstat_total(all, column as int) <= usize::MAX,
            total as nat == numstat_total(all.take(index as int), column as int),
        decreases lines@.len() - index,
    {
        let value = numstat_value(&lines[index], column);
        proof {
            assert(all.take(index + 1).drop_last() =~= all.take(index as int));
            assert(all.take(index + 1).last() == lines@[index as int]@);
            lemma_numstat_total_grows(all, column as int, index + 1);
        }
        total = total + value;
        index += 1;
    }
    proof {
        assert(all.take(index as int) =~= all);
    }
    total
}

/// Reads the status of a working tree from the output of `git status --porcelain=v1 --branch`,
/// of `git diff --numstat HEAD`, and, where it was read, of `git rev-parse --short HEAD`.
pub fn parse_git_status(status: &str, numstat: &str, detached_head: Option<&str>) -> (parsed:
    Option<GitStatus>)
    requires
        git_status_fits(status@, numstat@),
    ensures
        parsed.is_some() == git_status_of(status@, numstat@, optional_text(detached_head)).is_some(),
        parsed matches Some(found) ==> git_status_of(
            status@,
            numstat@,
            optional_text(detached_head),
        ) == Some(found.view()),
{
    let status_chars = chars_of(status);
    let lines = split_lines(&status_chars);
    proof {
        assert(line_views(lines@).len() == lines@.len());
    }
    if lines.len() == 0 {
        return None;
    }
    let header_mark = chars_of("## ");
    if !starts_with_chars(&lines[0], &header_mark) {
        proof {
            assert(line_views(lines@)[0] == lines@[0]@);
        }
        return None;
    }
    proof {
        assert(line_views(lines@)[0] == lines@[0]@);
        reveal_strlit("## ");
    }
    let header = skip_chars(&lines[0], 3);
    let branch_chars = if starts_with_chars(&header, &chars_of("HEAD ")) {
        let head = match detached_head {
            Some(head) => chars_of(head),
            None => chars_of("detached"),
        };
        trim_chars(&head)
    } else {
        let no_commits = chars_of("No commits yet on ");
        let name = if starts_with_chars(&header, &no_commits) {
            skip_chars(&header, no_commits.len())
        } else {
            header
        };
        let before_upstream = text_before(&name, &chars_of("..."));
        let before_counts = text_before(&before_upstream, &chars_of(" ["));
        trim_chars(&before_counts)
    };
    let numstat_chars = chars_of(numstat);
    let numstat_lines = split_lines(&numstat_chars);
    let additions = numstat_sum(&numstat_lines, 0);
    let deletions = numstat_sum(&numstat_lines, 1);
    Some(
        GitStatus {
            branch: string_from_chars(&branch_chars),
            changed_files: lines.len() - 1,
            additions,
            deletions,
        },
    )
}

/// Whether `parse_git_status` runs to completion on these reports: where the status has a
/// header, both numstat columns must sum to values that fit in `usize`.
pub fn status_fits(status: &str, numstat: &str) -> (fits: bool)
    ensures
        fits == git_status_fits(status@, numstat@),
{
    let status_chars = chars_of(status);
    let lines = split_lines(&status_chars);
    proof {
        assert(line_views(lines@).len() == lines@.len());
    }
    if lines.len() == 0 {
        return true;
    }
    proof {
        assert(line_views(lines@)[0] == lines@[0]@);
    }
    if !starts_with_chars(&lines[0], &chars_of("## ")) {
        return true;
    }
    let chars = chars_of(numstat);
    let numstat_lines = split_lines(&chars);
    column_fits(&numstat_lines, 0) && column_fits(&numstat_lines, 1)
}

fn column_fits(lines: &Vec<Vec<char>>, column: usize) -> (fits: bool)
    requires
        column <= 1,
    ensures
        fits == (numstat_total(line_views(lines@), column as int) <= usize::MAX),
{
    let ghost all = line_views(lines@);
    let mut total: usize = 0;
    let mut index: usize = 0;
    while index < lines.len()
        invariant
            column <= 1,
            all == line_views(lines@),
            index <= lines@.len(),
            total as nat == numstat_total(all.take(index as int), column as int),
        decreases lines@.len() - index,
    {
        let value = numstat_value(&lines[index], column);
        proof {
            assert(all.take(index + 1).drop_last() =~= all.take(index as int));
            assert(all.take(index + 1).last() == lines@[index as int]@);
        }
        match total.checked_add(value) {
            Some(next) => {
                total = next;
            },
            None => {
                proof {
                    lemma_numstat_total_grows(all, column as int, index + 1);
                }
                return false;
            },
        }
        index += 1;
    }
    proof {
        assert(all.take(index as int) =~= all);
    }
    true
}

} // verus!
