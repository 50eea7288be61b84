use vstd::prelude::*;

verus! {

/// Rust's `char::is_whitespace`: the Unicode `White_Space` property.
pub open spec fn is_whitespace_char(c: char) -> bool {
    let v = c as u32;
    (0x9 <= v <= 0xd) || v == 0x20 || v == 0x85 || v == 0xa0 || v == 0x1680 || (0x2000 <= v
        <= 0x200a) || v == 0x2028 || v == 0x2029 || v == 0x202f || v == 0x205f || v == 0x3000
}

pub fn char_is_whitespace(c: char) -> (answer: bool)
    ensures
        answer == is_whitespace_char(c),
{
    let v = c as u32;
    (0x9 <= v && v <= 0xd) || v == 0x20 || v == 0x85 || v == 0xa0 || v == 0x1680 || (0x2000 <= v
        && v <= 0x200a) || v == 0x2028 || v == 0x2029 || v == 0x202f || v == 0x205f || v == 0x3000
}

/// Whether every character of the text is whitespace (the text trims to nothing).
pub open spec fn is_blank(text: Seq<char>) -> bool {
    forall|i: int| 0 <= i < text.len() ==> is_whitespace_char(#[trigger] text[i])
}

pub fn blank(text: &str) -> (answer: bool)
    ensures
        answer == is_blank(text@),
{
    let mut all = true;
    proof {
        broadcast use vstd::string::axiom_spec_iter;
    }
    for c in it: text.chars()
        invariant
            it.seq() == text@,
            all == (forall|i: int| 0 <= i < it.index() ==> is_whitespace_char(#[trigger] text@[i])),
    {
        if !char_is_whitespace(c) {
            all = false;
        }
    }
    all
}

/// `String::push` from std appends one character; the contract claims what its documentation
/// says: the string's characters are the old ones followed by `ch`.
pub assume_specification[ String::push ](string: &mut String, ch: char)
    ensures
        final(string)@ == old(string)@.push(ch),
;

/// Builds a `String` holding exactly the given characters.
pub fn string_from_chars(chars: &Vec<char>) -> (text: String)
    ensures
        text@ == chars@,
{
    let mut text = String::new();
    let mut index: usize = 0;
    while index < chars.len()
        invariant
            index <= chars@.len(),
            text@ == chars@.take(index as int),
        decreases chars@.len() - index,
    {
        text.push(chars[index]);
        proof {
            assert(chars@.take(index + 1) =~= chars@.take(index as int).push(chars@[index as int]));
        }
        index += 1;
    }
    proof {
        assert(chars@.take(chars@.len() as int) =~= chars@);
    }
    text
}

/// The characters of a text, in order.
pub fn chars_of(text: &str) -> (chars: Vec<char>)
    ensures
        chars@ == text@,
{
    let mut chars: Vec<char> = Vec::new();
    proof {
        broadcast use vstd::string::axiom_spec_iter;
    }
    for c in it: text.chars()
        invariant
            it.seq() == text@,
            chars@ == text@.take(it.index() as int),
    {
        proof {
            assert(text@.take(it.index() + 1) =~= text@.take(it.index() as int).push(c));
        }
        chars.push(c);
    }
    proof {
        assert(text@.take(text@.len() as int) =~= text@);
    }
    chars
}

/// ASCII uppercase letters become lowercase; every other character stays.
pub open spec fn ascii_lower(c: char) -> char {
    if 'A' <= c <= 'Z' {
        ((c as u32) + 32) as char
    } else {
        c
    }
}

/// The text with ASCII uppercase letters made lowercase.
pub open spec fn lowercase_ascii(text: Seq<char>) -> Seq<char> {
    text.map_values(|c: char| ascii_lower(c))
}

/// Whether `needle` occurs as a contiguous part of `haystack`.
pub open spec fn has_substring(haystack: Seq<char>, needle: Seq<char>) -> bool {
    exists|i: int|
        0 <= i && i + needle.len() <= haystack.len() && #[trigger] haystack.subrange(i, i + needle.len())
            == needle
}

/// Whether `text` begins with `prefix`.
pub open spec fn has_prefix(text: Seq<char>, prefix: Seq<char>) -> bool {
    prefix.len() <= text.len() && text.subrange(0, prefix.len() as int) == prefix
}

/// The text without its leading whitespace.
pub open spec fn trim_start(text: Seq<char>) -> Seq<char>
    decreases text.len(),
{
    if text.len() > 0 && is_whitespace_char(text[0]) {
        trim_start(text.drop_first())
    } else {
        text
    }
}

/// The text without its trailing whitespace.
pub open spec fn trim_end(text: Seq<char>) -> Seq<char>
    decreases text.len(),
{
    if text.len() > 0 && is_whitespace_char(text.last()) {
        trim_end(text.drop_last())
    } else {
        text
    }
}

/// The text without leading and trailing whitespace, as `str::trim` returns it.
pub open spec fn trimmed(text: Seq<char>) -> Seq<char> {
    trim_end(trim_start(text))
}

/// The decimal digits of a natural number, without leading zeros.
pub open spec fn decimal(n: nat) -> Seq<char>
    decreases n,
{
    if n < 10 {
        seq![digit_char(n)]
    } else {
        decimal(n / 10) + seq![digit_char(n % 10)]
    }
}

/// The character of a decimal digit.
pub open spec fn digit_char(d: nat) -> char {
    (('0' as u32) + d) as char
}

/// Lowercases the ASCII letters of a character sequence.
pub fn to_ascii_lowercase(text: &Vec<char>) -> (lower: Vec<char>)
    ensures
        lower@ == lowercase_ascii(text@),
{
    let mut lower: Vec<char> = Vec::new();
    let mut index: usize = 0;
    while index < text.len()
        invariant
            index <= text@.len(),
            lower@ == lowercase_ascii(text@.take(index as int)),
        decreases text@.len() - index,
    {
        let c = text[index];
        let l = if 'A' <= c && c <= 'Z' {
            ((c as u32) + 32) as u8 as char
        } else {
            c
        };
        proof {
            if 'A' <= c && c <= 'Z' {
                assert(((c as u32) + 32) as u8 as char == ascii_lower(c));
            }
        }
        lower.push(l);
        proof {
            assert(lowercase_ascii(text@.take(index + 1)) =~= lowercase_ascii(text@.take(index as int)).push(
                ascii_lower(c),
            ));
        }
        index += 1;
    }
    proof {
        assert(text@.take(text@.len() as int) =~= text@);
    }
    lower
}

fn matches_at(haystack: &Vec<char>, needle: &Vec<char>, start: usize) -> (found: bool)
    requires
        start + needle@.len() <= haystack@.len(),
    ensures
        found == (haystack@.subrange(start as int, start + needle@.len()) == needle@),
{
    let total = haystack.len();
    let mut index: usize = 0;
    while index < needle.len()
        invariant
            start + needle@.len() <= haystack@.len(),
            total == haystack@.len(),
            index <= needle@.len(),
            forall|j: int| 0 <= j < index ==> haystack@[start + j] == needle@[j],
        decreases needle@.len() - index,
    {
        if haystack[start + index] != needle[index] {
            proof {
                assert(haystack@.subrange(start as int, start + needle@.len())[index as int]
                    != needle@[index as int]);
            }
            return false;
        }
        index += 1;
    }
    proof {
        assert(haystack@.subrange(start as int, start + needle@.len()) =~= needle@);
    }
    true
}

/// Whether `needle` occurs in `haystack`.
pub fn contains_chars(haystack: &Vec<char>, needle: &Vec<char>) -> (found: bool)
    ensures
        found == has_substring(haystack@, needle@),
{
    if needle.len() > haystack.len() {
        return false;
    }
    let last = haystack.len() - needle.len();
    let mut start: usize = 0;
    loop
        invariant
            last + needle@.len() == haystack@.len(),
            start <= last,
            forall|i: int|
                0 <= i < start ==> #[trigger] haystack@.subrange(i, i + needle@.len()) != needle@,
        decreases last - start,
    {
        if matches_at(haystack, needle, start) {
            return true;
        }
        if start == last {
            return false;
        }
        start += 1;
    }
}

/// Whether `text` begins with `prefix`.
pub fn starts_with_chars(text: &Vec<char>, prefix: &Vec<char>) -> (found: bool)
    ensures
        found == has_prefix(text@, prefix@),
{
    if prefix.len() > text.len() {
        return false;
    }
    matches_at(text, prefix, 0)
}

/// Whether two texts are equal.
pub fn text_equals(a: &str, b: &str) -> (equal: bool)
    ensures
        equal == (a@ == b@),
{
    let a_chars = chars_of(a);
    let b_chars = chars_of(b);
    if a_chars.len() != b_chars.len() {
        return false;
    }
    let found = matches_at(&a_chars, &b_chars, 0);
    proof {
        assert(a@.subrange(0, b@.len() as int) =~= a@);
    }
    found
}

/// The text without leading and trailing whitespace.
pub fn trim_chars(text: &Vec<char>) -> (trimmed_text: Vec<char>)
    ensures
        trimmed_text@ == trimmed(text@),
{
    let mut start: usize = 0;
    proof {
        assert(text@.skip(0) =~= text@);
    }
    while start < text.len() && char_is_whitespace(text[start])
        invariant
            start <= text@.len(),
            trim_start(text@) == trim_start(text@.skip(start as int)),
        decreases text@.len() - start,
    {
        proof {
            assert(text@.skip(start as int).drop_first() =~= text@.skip(start + 1));
        }
        start += 1;
    }
    let mut end: usize = text.len();
    let ghost front = text@.skip(start as int);
    proof {
        assert(trim_start(text@) == front);
    }
    while end > start && char_is_whitespace(text[end - 1])
        invariant
            start <= end <= text@.len(),
            front == text@.skip(start as int),
            trim_end(front) == trim_end(text@.subrange(start as int, end as int)),
        decreases end - start,
    {
        proof {
            assert(text@.subrange(start as int, end as int).drop_last() =~= text@.subrange(
                start as int,
                end - 1,
            ));
        }
        end -= 1;
    }
    let mut trimmed_text: Vec<char> = Vec::new();
    let mut index: usize = start;
    while index < end
        invariant
            start <= index <= end <= text@.len(),
            trimmed_text@ == text@.subrange(start as int, index as int),
        decreases end - index,
    {
        trimmed_text.push(text[index]);
        proof {
            assert(text@.subrange(start as int, index + 1) =~= text@.subrange(start as int, index as int).push(
                text@[index as int],
            ));
        }
        index += 1;
    }
    trimmed_text
}

/// Appends the decimal digits of `n`.
pub fn push_decimal(out: &mut Vec<char>, n: u64)
    ensures
        final(out)@ == old(out)@ + decimal(n as nat),
    decreases n,
{
    if n >= 10 {
        push_decimal(out, n / 10);
    }
    let d = (n % 10) as u8;
    let c = (48 + d) as char;
    out.push(c);
    proof {
        assert(c == digit_char((n % 10) as nat));
        assert(final(out)@ =~= old(out)@ + decimal(n as nat));
    }
}

/// Appends the characters of `piece`.
pub fn push_all(out: &mut Vec<char>, piece: &Vec<char>)
    ensures
        final(out)@ == old(out)@ + piece@,
{
    let mut index: usize = 0;
    while index < piece.len()
        invariant
            index <= piece@.len(),
            out@ == old(out)@ + piece@.take(index as int),
        decreases piece@.len() - index,
    {
        out.push(piece[index]);
        proof {
            assert(piece@.take(index + 1) =~= piece@.take(index as int).push(piece@[index as int]));
        }
        index += 1;
    }
    proof {
        assert(piece@.take(piece@.len() as int) =~= piece@);
    }
}

/// The characters `text[start..end]`, copied.
pub fn copy_range(text: &Vec<char>, start: usize, end: usize) -> (piece: Vec<char>)
    requires
        start <= end <= text@.len(),
    ensures
        piece@ == text@.subrange(start as int, end as int),
{
    let mut piece: Vec<char> = Vec::new();
    let mut index: usize = start;
    while index < end
        invariant
            start <= index <= end <= text@.len(),
            piece@ == text@.subrange(start as int, index as int),
        decreases end - index,
    {
        piece.push(text[index]);
        proof {
            assert(text@.subrange(start as int, index + 1) =~= text@.subrange(start as int, index as int).push(
                text@[index as int],
            ));
        }
        index += 1;
    }
    piece
}

/// Whether `pattern` occurs in `text` at position `at`.
pub open spec fn occurs_at(text: Seq<char>, pattern: Seq<char>, at: int) -> bool {
    0 <= at && at + pattern.len() <= text.len() && text.subrange(at, at + pattern.len()) == pattern
}

/// The leftmost position at or after `from` where `pattern` occurs in `text`, or the length of
/// `text` where there is none.
pub open spec fn find_from(text: Seq<char>, pattern: Seq<char>, from: int) -> int
    decreases text.len() - from,
{
    if from < 0 || from >= text.len() || from + pattern.len() > text.len() {
        text.len() as int
    } else if occurs_at(text, pattern, from) {
        from
    } else {
        find_from(text, pattern, from + 1)
    }
}

/// The part of `text` before the leftmost occurrence of `pattern`; all of it where there is
/// none. This is the first piece that `str::split` gives.
pub open spec fn before_first(text: Seq<char>, pattern: Seq<char>) -> Seq<char> {
    text.take(find_from(text, pattern, 0))
}

proof fn lemma_find_from_bounds(text: Seq<char>, pattern: Seq<char>, from: int)
    requires
        0 <= from,
    ensures
        from <= find_from(text, pattern, from) <= text.len() || find_from(text, pattern, from)
            == text.len(),
        0 <= find_from(text, pattern, from) <= text.len(),
    decreases text.len() - from,
{
    if from < 0 || from >= text.len() || from + pattern.len() > text.len() {
    } else if occurs_at(text, pattern, from) {
    } else {
        lemma_find_from_bounds(text, pattern, from + 1);
    }
}

/// The leftmost position where `pattern` occurs in `text`, or the length of `text`.
pub fn find_text(text: &Vec<char>, pattern: &Vec<char>) -> (position: usize)
    ensures
        position == find_from(text@, pattern@, 0),
{
    let mut from: usize = 0;
    loop
        invariant
            from <= text@.len() + 1,
            find_from(text@, pattern@, 0) == find_from(text@, pattern@, from as int),
        decreases text@.len() + 1 - from,
    {
        if from >= text.len() || pattern.len() > text.len() || from > text.len() - pattern.len() {
            return text.len();
        }
        if matches_at(text, pattern, from) {
            return from;
        }
        from += 1;
    }
}

/// The part of `text` before the leftmost occurrence of `pattern`, or all of it.
pub fn text_before(text: &Vec<char>, pattern: &Vec<char>) -> (piece: Vec<char>)
    ensures
        piece@ == before_first(text@, pattern@),
{
    let end = find_text(text, pattern);
    proof {
        lemma_find_from_bounds(text@, pattern@, 0);
    }
    copy_range(text, 0, end)
}

/// The line without one trailing carriage return.
pub open spec fn without_cr(line: Seq<char>) -> Seq<char> {
    if line.len() > 0 && line.last() == '\r' {
        line.drop_last()
    } else {
        line
    }
}

/// Where the line that starts at `from` ends: the position of the next newline, or the length.
pub open spec fn line_end(text: Seq<char>, from: int) -> int
    decreases text.len() - from,
{
    if from < 0 || from >= text.len() {
        text.len() as int
    } else if text[from] == '\n' {
        from
    } else {
        line_end(text, from + 1)
    }
}

/// The lines of `text[from..]`.
pub open spec fn lines_from(text: Seq<char>, from: int) -> Seq<Seq<char>>
    decreases text.len() - from,
{
    if from < 0 || from >= text.len() {
        seq![]
    } else {
        let end = line_end(text, from);
        if end < from || end >= text.len() {
            seq![without_cr(text.subrange(from, text.len() as int))]
        } else {
            seq![without_cr(text.subrange(from, end))] + lines_from(text, end + 1)
        }
    }
}

/// The lines of a text as `str::lines` gives them: split at each newline, one carriage return
/// before a newline dropped, and no empty line after a final newline.
pub open spec fn text_lines(text: Seq<char>) -> Seq<Seq<char>> {
    lines_from(text, 0)
}

/// The character sequences of a list of lines.
pub open spec fn line_views(lines: Seq<Vec<char>>) -> Seq<Seq<char>> {
    lines.map_values(|line: Vec<char>| line@)
}

proof fn lemma_line_end_bounds(text: Seq<char>, from: int)
    requires
        0 <= from <= text.len(),
    ensures
        from <= line_end(text, from) <= text.len(),
    decreases text.len() - from,
{
    if from < text.len() && text[from] != '\n' {
        lemma_line_end_bounds(text, from + 1);
    }
}

fn line_without_cr(text: &Vec<char>, start: usize, end: usize) -> (line: Vec<char>)
    requires
        start <= end <= text@.len(),
    ensures
        line@ == without_cr(text@.subrange(start as int, end as int)),
{
    let mut line = copy_range(text, start, end);
    if line.len() > 0 && line[line.len() - 1] == '\r' {
        line.pop();
    }
    line
}

/// Splits a text into its lines, as `str::lines` does.
pub fn split_lines(text: &Vec<char>) -> (lines: Vec<Vec<char>>)
    ensures
        line_views(lines@) == text_lines(text@),
{
    let mut lines: Vec<Vec<char>> = Vec::new();
    let mut start: usize = 0;
    let mut index: usize = 0;
    let ghost whole = text@;
    while index < text.len()
        invariant
            whole == text@,
            start <= index <= text@.len(),
            line_end(whole, start as int) == line_end(whole, index as int),
            line_views(lines@) + lines_from(whole, start as int) == text_lines(whole),
        decreases text@.len() - index,
    {
        if text[index] == '\n' {
            let line = line_without_cr(text, start, index);
            proof {
                assert(lines_from(whole, start as int) == seq![without_cr(
                    whole.subrange(start as int, index as int),
                )] + lines_from(whole, index + 1));
                assert(line_views(lines@.push(line)) =~= line_views(lines@).push(line@));
                assert(line_views(lines@).push(line@) + lines_from(whole, index + 1) =~= line_views(
                    lines@,
                ) + lines_from(whole, start as int));
            }
            lines.push(line);
            start = index + 1;
        }
        index += 1;
    }
    if start < text.len() {
        let line = line_without_cr(text, start, text.len());
        proof {
            assert(line_end(whole, start as int) == whole.len());
            assert(lines_from(whole, start as int) =~= seq![line@]);
            assert(line_views(lines@.push(line)) =~= line_views(lines@).push(line@));
            assert(line_views(lines@) + seq![line@] =~= line_views(lines@).push(line@));
        }
        lines.push(line);
    } else {
        proof {
            assert(line_views(lines@) + lines_from(whole, start as int) =~= line_views(lines@));
        }
    }
    lines
}

/// The text without its first `count` characters.
pub fn skip_chars(text: &Vec<char>, count: usize) -> (rest: Vec<char>)
    requires
        count <= text@.len(),
    ensures
        rest@ == text@.skip(count as int),
{
    let rest = copy_range(text, count, text.len());
    proof {
        assert(rest@ =~= text@.skip(count as int));
    }
    rest
}

/// Whether a character separates the components of a Windows path.
pub open spec fn is_path_separator(c: char) -> bool {
    c == '\\' || c == '/'
}

/// The drive of a Windows path that starts with a letter and a colon, the letter upper-cased.
pub open spec fn drive_letter(path: Seq<char>) -> Option<char> {
    if path.len() >= 2 && path[1] == ':' && (('a' <= path[0] <= 'z') || ('A' <= path[0] <= 'Z')) {
        Some(
            if 'a' <= path[0] <= 'z' {
                ((path[0] as u32) - 32) as char
            } else {
                path[0]
            },
        )
    } else {
        None
    }
}

/// Adds a finished component: empty components (from repeated or trailing separators) and `.`
/// are dropped, but for a `.` that leads a path without a root.
pub open spec fn with_component(done: Seq<Seq<char>>, piece: Seq<char>, first: bool, keep_dot: bool) -> Seq<
    Seq<char>,
> {
    if (piece.len() > 0 && piece != seq!['.']) || (first && keep_dot && piece == seq!['.']) {
        done.push(piece)
    } else {
        done
    }
}

/// The components of the rest of a path, read left to right with the component in progress.
pub open spec fn components_scan(
    text: Seq<char>,
    piece: Seq<char>,
    done: Seq<Seq<char>>,
    first: bool,
    keep_dot: bool,
) -> Seq<Seq<char>>
    decreases text.len(),
{
    if text.len() == 0 {
        with_component(done, piece, first, keep_dot)
    } else if is_path_separator(text[0]) {
        components_scan(text.drop_first(), seq![], with_component(done, piece, first, keep_dot), false, keep_dot)
    } else {
        components_scan(text.drop_first(), piece.push(text[0]), done, first, keep_dot)
    }
}

/// A Windows path as `Path` compares it: its drive (letter upper-cased), whether it has a root
/// separator, and its components, with `/` and `\` both separating, repeated and trailing
/// separators ignored, and `.` components dropped but for a leading one in a path without a
/// root.
pub open spec fn path_components(path: Seq<char>) -> (Option<char>, bool, Seq<Seq<char>>) {
    let drive = drive_letter(path);
    let rest = if drive is Some {
        path.skip(2)
    } else {
        path
    };
    let rooted = rest.len() > 0 && is_path_separator(rest[0]);
    (drive, rooted, components_scan(rest, seq![], seq![], true, !rooted))
}

/// Whether two Windows paths name the same path, component by component. A UNC (`\\server\share`)
/// or verbatim (`\\?\`) prefix is read like the rest of the path, as a root and components,
/// rather than as a prefix of its own.
pub open spec fn same_path(a: Seq<char>, b: Seq<char>) -> bool {
    path_components(a) == path_components(b)
}

fn chars_equal(a: &Vec<char>, b: &Vec<char>) -> (equal: bool)
    ensures
        equal == (a@ == b@),
{
    if a.len() != b.len() {
        return false;
    }
    let mut index: usize = 0;
    while index < a.len()
        invariant
            a@.len() == b@.len(),
            index <= a@.len(),
            forall|j: int| 0 <= j < index ==> a@[j] == b@[j],
        decreases a@.len() - index,
    {
        if a[index] != b[index] {
            return false;
        }
        index += 1;
    }
    proof {
        assert(a@ =~= b@);
    }
    true
}

pub open spec fn piece_views(pieces: Seq<Vec<char>>) -> Seq<Seq<char>> {
    pieces.map_values(|p: Vec<char>| p@)
}

fn is_dot(piece: &Vec<char>) -> (dot: bool)
    ensures
        dot == (piece@ == seq!['.']),
{
    let dot = piece.len() == 1 && piece[0] == '.';
    proof {
        if piece@.len() == 1 && piece@[0] == '.' {
            assert(piece@ =~= seq!['.']);
        }
    }
    dot
}

/// The parts of a Windows path as `path_components` gives them.
fn components_of(path: &str) -> (parts: (Option<char>, bool, Vec<Vec<char>>))
    ensures
        (parts.0, parts.1, piece_views(parts.2@)) == path_components(path@),
{
    let chars = chars_of(path);
    let ghost whole = chars@;
    let has_drive = chars.len() >= 2 && chars[1] == ':' && (('a' <= chars[0] && chars[0] <= 'z')
        || ('A' <= chars[0] && chars[0] <= 'Z'));
    let drive: Option<char> = if has_drive {
        if 'a' <= chars[0] && chars[0] <= 'z' {
            Some(((chars[0] as u32) - 32) as u8 as char)
        } else {
            Some(chars[0])
        }
    } else {
        None
    };
    proof {
        if has_drive && 'a' <= chars@[0] && chars@[0] <= 'z' {
            assert(((chars@[0] as u32) - 32) as u8 as char == ((chars@[0] as u32) - 32) as char);
        }
    }
    let start: usize = if has_drive {
        2
    } else {
        0
    };
    let ghost rest = whole.skip(start as int);
    proof {
        assert(rest =~= if drive_letter(whole) is Some { whole.skip(2) } else { whole });
    }
    let rooted = start < chars.len() && (chars[start] == '\\' || chars[start] == '/');
    let keep_dot = !rooted;
    let mut done: Vec<Vec<char>> = Vec::new();
    let mut piece: Vec<char> = Vec::new();
    let mut first = true;
    let mut index: usize = start;
    proof {
        assert(piece_views(done@) =~= Seq::<Seq<char>>::empty());
        assert(piece@ =~= Seq::<char>::empty());
        assert(whole.skip(start as int) =~= rest);
    }
    while index < chars.len()
        invariant
            whole == chars@,
            start <= index <= chars@.len(),
            rest == whole.skip(start as int),
            components_scan(rest, seq![], seq![], true, keep_dot) == components_scan(
                whole.skip(index as int),
                piece@,
                piece_views(done@),
                first,
                keep_dot,
            ),
        decreases chars@.len() - index,
    {
        let c = chars[index];
        let ghost tail = whole.skip(index as int);
        proof {
            assert(tail[0] == c);
            assert(tail.drop_first() =~= whole.skip(index + 1));
        }
        if c == '\\' || c == '/' {
            let take = (piece.len() > 0 && !is_dot(&piece)) || (first && keep_dot && is_dot(&piece));
            let ghost before = piece_views(done@);
            if take {
                done.push(piece);
                proof {
                    assert(piece_views(done@) =~= before.push(done@.last()@));
                }
            }
            piece = Vec::new();
            first = false;
            proof {
                assert(piece@ =~= Seq::<char>::empty());
            }
        } else {
            piece.push(c);
        }
        index += 1;
    }
    proof {
        assert(whole.skip(index as int) =~= Seq::<char>::empty());
    }
    let take = (piece.len() > 0 && !is_dot(&piece)) || (first && keep_dot && is_dot(&piece));
    let ghost before = piece_views(done@);
    if take {
        done.push(piece);
        proof {
            assert(piece_views(done@) =~= before.push(done@.last()@));
        }
    }
    proof {
        assert(rooted == (rest.len() > 0 && is_path_separator(rest[0])));
    }
    (drive, rooted, done)
}

/// Whether two Windows paths name the same path, component by component (see `same_path`).
pub fn paths_equal(a: &str, b: &str) -> (equal: bool)
    ensures
        equal == same_path(a@, b@),
{
    let (drive_a, rooted_a, pieces_a) = components_of(a);
    let (drive_b, rooted_b, pieces_b) = components_of(b);
    if drive_a != drive_b || rooted_a != rooted_b || pieces_a.len() != pieces_b.len() {
        proof {
            if pieces_a.len() != pieces_b.len() {
                assert(piece_views(pieces_a@).len() != piece_views(pieces_b@).len());
            }
        }
        return false;
    }
    let mut index: usize = 0;
    while index < pieces_a.len()
        invariant
            pieces_a@.len() == pieces_b@.len(),
            index <= pieces_a@.len(),
            forall|j: int| 0 <= j < index ==> pieces_a@[j]@ == pieces_b@[j]@,
            piece_views(pieces_a@) == path_components(a@).2,
            piece_views(pieces_b@) == path_components(b@).2,
            drive_a == path_components(a@).0,
            drive_b == path_components(b@).0,
            rooted_a == path_components(a@).1,
            rooted_b == path_components(b@).1,
            drive_a == drive_b,
            rooted_a == rooted_b,
        decreases pieces_a@.len() - index,
    {
        if !chars_equal(&pieces_a[index], &pieces_b[index]) {
            proof {
                assert(piece_views(pieces_a@)[index as int] != piece_views(pieces_b@)[index as int]);
                assert(piece_views(pieces_a@) != piece_views(pieces_b@));
                assert(path_components(a@).2 != path_components(b@).2);
            }
            return false;
        }
        index += 1;
    }
    proof {
        assert(piece_views(pieces_a@) =~= piece_views(pieces_b@));
    }
    true
}

} // verus!
