use vstd::prelude::*;
use vstd::utf8::{decode_utf8, valid_utf8};

use crate::file_url::{file_url_path, file_url_to_path, utf8_text};

verus! {

/// Whether `needle` occurs in `haystack` at position `at`.
pub open spec fn bytes_at(haystack: Seq<u8>, needle: Seq<u8>, at: int) -> bool {
    0 <= at && at + needle.len() <= haystack.len() && haystack.subrange(at, at + needle.len())
        == needle
}

/// The leftmost position at or after `from` where `needle` occurs, or the length of `haystack`.
pub open spec fn find_bytes_from(haystack: Seq<u8>, needle: Seq<u8>, from: int) -> int
    decreases haystack.len() - from,
{
    if from < 0 || from >= haystack.len() || from + needle.len() > haystack.len() {
        haystack.len() as int
    } else if bytes_at(haystack, needle, from) {
        from
    } else {
        find_bytes_from(haystack, needle, from + 1)
    }
}

/// The leftmost position where a non-empty `needle` occurs in `haystack`.
pub open spec fn first_occurrence(haystack: Seq<u8>, needle: Seq<u8>) -> Option<int> {
    let at = find_bytes_from(haystack, needle, 0);
    if at < haystack.len() {
        Some(at)
    } else {
        None
    }
}

/// The rightmost position at or before `upto` where `needle` occurs, or -1.
pub open spec fn last_bytes_upto(haystack: Seq<u8>, needle: Seq<u8>, upto: int) -> int
    decreases upto + 1,
{
    if upto < 0 {
        -1
    } else if bytes_at(haystack, needle, upto) {
        upto
    } else {
        last_bytes_upto(haystack, needle, upto - 1)
    }
}

/// The rightmost position where `needle` occurs in `haystack`.
pub open spec fn last_occurrence(haystack: Seq<u8>, needle: Seq<u8>) -> Option<int> {
    let at = last_bytes_upto(haystack, needle, haystack.len() - needle.len());
    if at >= 0 {
        Some(at)
    } else {
        None
    }
}

proof fn lemma_find_bytes_bounds(haystack: Seq<u8>, needle: Seq<u8>, from: int)
    requires
        0 <= from,
        needle.len() > 0,
    ensures
        find_bytes_from(haystack, needle, from) == haystack.len() || (from <= find_bytes_from(
            haystack,
            needle,
            from,
        ) && bytes_at(haystack, needle, find_bytes_from(haystack, needle, from))),
        find_bytes_from(haystack, needle, from) <= haystack.len(),
    decreases haystack.len() - from,
{
    if from < 0 || from >= haystack.len() || from + needle.len() > haystack.len() {
    } else if bytes_at(haystack, needle, from) {
    } else {
        lemma_find_bytes_bounds(haystack, needle, from + 1);
    }
}

/// Where a non-empty needle is found, it does occur there.
pub proof fn lemma_first_occurrence_found(haystack: Seq<u8>, needle: Seq<u8>)
    requires
        needle.len() > 0,
    ensures
        first_occurrence(haystack, needle) matches Some(at) ==> bytes_at(haystack, needle, at),
{
    lemma_find_bytes_bounds(haystack, needle, 0);
}

fn bytes_match_at(haystack: &[u8], needle: &[u8], at: usize) -> (found: bool)
    requires
        at + needle@.len() <= haystack@.len(),
    ensures
        found == bytes_at(haystack@, needle@, at as int),
{
    let total = haystack.len();
    let mut index: usize = 0;
    while index < needle.len()
        invariant
            total == haystack@.len(),
            at + needle@.len() <= haystack@.len(),
            index <= needle@.len(),
            forall|j: int| 0 <= j < index ==> haystack@[at + j] == needle@[j],
        decreases needle@.len() - index,
    {
        if haystack[at + index] != needle[index] {
            proof {
                assert(haystack@.subrange(at as int, at + needle@.len())[index as int]
                    != needle@[index as int]);
            }
            return false;
        }
        index += 1;
    }
    proof {
        assert(haystack@.subrange(at as int, at + needle@.len()) =~= needle@);
    }
    true
}

/// The leftmost position at or after `from` where `needle` occurs, or the length.
fn find_bytes_at_or_after(haystack: &[u8], needle: &[u8], from: usize) -> (position: usize)
    ensures
        position == find_bytes_from(haystack@, needle@, from as int),
{
    let mut at: usize = from;
    loop
        invariant
            from <= at,
            find_bytes_from(haystack@, needle@, from as int) == find_bytes_from(
                haystack@,
                needle@,
                at as int,
            ),
        decreases haystack@.len() + 1 - at,
    {
        if at >= haystack.len() || needle.len() > haystack.len() || at > haystack.len()
            - needle.len() {
            return haystack.len();
        }
        if bytes_match_at(haystack, needle, at) {
            return at;
        }
        at += 1;
    }
}

/// The leftmost position where `needle` occurs in `haystack`. An empty needle is refused, as
/// the windows of an empty width are.
pub fn find_bytes(haystack: &[u8], needle: &[u8]) -> (position: Option<usize>)
    requires
        needle@.len() > 0,
    ensures
        match position {
            Some(p) => first_occurrence(haystack@, needle@) == Some(p as int),
            None => first_occurrence(haystack@, needle@) is None,
        },
{
    let at = find_bytes_at_or_after(haystack, needle, 0);
    if at < haystack.len() {
        Some(at)
    } else {
        None
    }
}

/// The rightmost position where `needle` occurs in `haystack`.
pub fn rfind_bytes(haystack: &[u8], needle: &[u8]) -> (position: Option<usize>)
    ensures
        match position {
            Some(p) => last_occurrence(haystack@, needle@) == Some(p as int),
            None => last_occurrence(haystack@, needle@) is None,
        },
{
    if needle.len() > haystack.len() {
        return None;
    }
    let mut upto: usize = haystack.len() - needle.len();
    loop
        invariant
            upto + needle@.len() <= haystack@.len(),
            last_bytes_upto(haystack@, needle@, haystack@.len() - needle@.len())
                == last_bytes_upto(haystack@, needle@, upto as int),
        decreases upto,
    {
        if bytes_match_at(haystack, needle, upto) {
            return Some(upto);
        }
        if upto == 0 {
            proof {
                assert(last_bytes_upto(haystack@, needle@, -1) == -1);
            }
            return None;
        }
        upto -= 1;
    }
}

/// Whether `bytes` ends with `suffix`.
pub open spec fn ends_with_bytes(bytes: Seq<u8>, suffix: Seq<u8>) -> bool {
    suffix.len() <= bytes.len() && bytes.subrange(bytes.len() - suffix.len(), bytes.len() as int)
        == suffix
}

/// The longest length, from `length` down to 1, of a beginning of `sequence` that `bytes` ends
/// with; 0 where there is none.
pub open spec fn longest_partial(bytes: Seq<u8>, sequence: Seq<u8>, length: int) -> int
    decreases length,
{
    if length <= 0 {
        0
    } else if ends_with_bytes(bytes, sequence.take(length)) {
        length
    } else {
        longest_partial(bytes, sequence, length - 1)
    }
}

fn ends_with_prefix_of(bytes: &[u8], sequence: &[u8], length: usize) -> (found: bool)
    requires
        length <= sequence@.len(),
    ensures
        found == ends_with_bytes(bytes@, sequence@.take(length as int)),
{
    if length > bytes.len() {
        return false;
    }
    let total = bytes.len();
    let start = total - length;
    let mut index: usize = 0;
    while index < length
        invariant
            total == bytes@.len(),
            length <= sequence@.len(),
            start + length == bytes@.len(),
            index <= length,
            forall|j: int| 0 <= j < index ==> bytes@[start + j] == sequence@[j],
        decreases length - index,
    {
        if bytes[start + index] != sequence[index] {
            proof {
                assert(bytes@.subrange(start as int, bytes@.len() as int)[index as int]
                    != sequence@.take(length as int)[index as int]);
            }
            return false;
        }
        index += 1;
    }
    proof {
        assert(bytes@.subrange(start as int, bytes@.len() as int) =~= sequence@.take(length as int));
    }
    true
}

/// How many bytes at the end of `bytes` could begin `sequence` (a proper beginning only): the
/// part to hold back until the next chunk shows whether the sequence follows.
pub fn partial_sequence_suffix(bytes: &[u8], sequence: &[u8]) -> (length: usize)
    ensures
        length == longest_partial(bytes@, sequence@, sequence@.len() - 1),
{
    if sequence.len() == 0 {
        return 0;
    }
    let mut length: usize = sequence.len() - 1;
    while length > 0
        invariant
            length < sequence@.len(),
            longest_partial(bytes@, sequence@, sequence@.len() - 1) == longest_partial(
                bytes@,
                sequence@,
                length as int,
            ),
        decreases length,
    {
        if ends_with_prefix_of(bytes, sequence, length) {
            return length;
        }
        length -= 1;
    }
    0
}

/// The bytes that open an OSC 7 (working directory) report: `ESC ] 7 ;`.
pub open spec fn osc7_prefix() -> Seq<u8> {
    seq![0x1bu8, 0x5du8, 0x37u8, 0x3bu8]
}

/// The string terminator `ESC \`.
pub open spec fn string_terminator() -> Seq<u8> {
    seq![0x1bu8, 0x5cu8]
}

/// Where an OSC payload ends: at its first BEL or its first `ESC \`, whichever comes first.
pub open spec fn payload_end(tail: Seq<u8>) -> Option<int> {
    let bell = first_occurrence(tail, seq![0x07u8]);
    let terminator = first_occurrence(tail, string_terminator());
    match (bell, terminator) {
        (Some(b), Some(t)) => Some(
            if b <= t {
                b
            } else {
                t
            },
        ),
        (Some(b), None) => Some(b),
        (None, Some(t)) => Some(t),
        (None, None) => None,
    }
}

/// The working directory that the last complete OSC 7 report in `bytes` names: the payload of
/// the last `ESC ] 7 ;`, up to its terminator, read as UTF-8 and taken as a `file:` URL.
pub open spec fn osc7_cwd(bytes: Seq<u8>) -> Option<Seq<char>> {
    match last_occurrence(bytes, osc7_prefix()) {
        Some(start) => {
            let tail = bytes.skip(start + 4);
            match payload_end(tail) {
                Some(end) => {
                    let uri = tail.take(end);
                    if valid_utf8(uri) {
                        file_url_path(decode_utf8(uri))
                    } else {
                        None
                    }
                },
                None => None,
            }
        },
        None => None,
    }
}

/// A copy of `bytes[start..end]`.
pub fn copy_bytes(bytes: &[u8], start: usize, end: usize) -> (piece: Vec<u8>)
    requires
        start <= end <= bytes@.len(),
    ensures
        piece@ == bytes@.subrange(start as int, end as int),
{
    let mut piece: Vec<u8> = Vec::new();
    let mut index: usize = start;
    while index < end
        invariant
            start <= index <= end <= bytes@.len(),
            piece@ == bytes@.subrange(start as int, index as int),
        decreases end - index,
    {
        piece.push(bytes[index]);
        proof {
            assert(bytes@.subrange(start as int, index + 1) =~= bytes@.subrange(start as int, index as int).push(
                bytes@[index as int],
            ));
        }
        index += 1;
    }
    piece
}

fn osc_payload_end(tail: &[u8]) -> (end: Option<usize>)
    ensures
        match end {
            Some(e) => payload_end(tail@) == Some(e as int),
            None => payload_end(tail@) is None,
        },
{
    let bell: Vec<u8> = vec![0x07];
    let terminator: Vec<u8> = vec![0x1b, 0x5c];
    proof {
        assert(bell@ =~= seq![0x07u8]);
        assert(terminator@ =~= string_terminator());
    }
    let b = find_bytes(tail, bell.as_slice());
    let t = find_bytes(tail, terminator.as_slice());
    match (b, t) {
        (Some(b), Some(t)) => Some(
            if b <= t {
                b
            } else {
                t
            },
        ),
        (Some(b), None) => Some(b),
        (None, Some(t)) => Some(t),
        (None, None) => None,
    }
}

/// The working directory named by the last complete OSC 7 report in `bytes`.
pub fn extract_osc7_cwd(bytes: &[u8]) -> (cwd: Option<String>)
    ensures
        match cwd {
            Some(c) => osc7_cwd(bytes@) == Some(c@),
            None => osc7_cwd(bytes@) is None,
        },
{
    let total = bytes.len();
    let prefix: Vec<u8> = vec![0x1b, 0x5d, 0x37, 0x3b];
    proof {
        assert(prefix@ =~= osc7_prefix());
    }
    let start = match rfind_bytes(bytes, prefix.as_slice()) {
        Some(s) => s,
        None => return None,
    };
    proof {
        assert(last_bytes_upto(bytes@, osc7_prefix(), bytes@.len() - 4) == start);
        lemma_last_bytes_found(bytes@, osc7_prefix(), bytes@.len() - 4);
    }
    let tail = copy_bytes(bytes, start + 4, total);
    proof {
        assert(tail@ =~= bytes@.skip(start + 4));
    }
    let end = match osc_payload_end(tail.as_slice()) {
        Some(e) => e,
        None => return None,
    };
    proof {
        lemma_payload_end_bound(tail@);
    }
    let uri_bytes = copy_bytes(tail.as_slice(), 0, end);
    proof {
        assert(uri_bytes@ =~= tail@.take(end as int));
    }
    match utf8_text(uri_bytes.as_slice()) {
        Some(uri) => file_url_to_path(uri.as_str()),
        None => None,
    }
}

proof fn lemma_last_bytes_found(haystack: Seq<u8>, needle: Seq<u8>, upto: int)
    requires
        last_bytes_upto(haystack, needle, upto) >= 0,
    ensures
        bytes_at(haystack, needle, last_bytes_upto(haystack, needle, upto)),
    decreases upto + 1,
{
    if upto < 0 {
    } else if bytes_at(haystack, needle, upto) {
    } else {
        lemma_last_bytes_found(haystack, needle, upto - 1);
    }
}

proof fn lemma_payload_end_bound(tail: Seq<u8>)
    ensures
        payload_end(tail) matches Some(e) ==> 0 <= e < tail.len(),
{
    lemma_find_bytes_bounds(tail, seq![0x07u8], 0);
    lemma_find_bytes_bounds(tail, string_terminator(), 0);
}

/// How many bytes of terminal output the working-directory tracker keeps while it waits for a
/// report to complete.
pub const OSC_BUFFER_LIMIT: usize = 8192;

/// The last `limit` bytes of `bytes`, or all of them where there are fewer.
pub open spec fn last_bytes(bytes: Seq<u8>, limit: nat) -> Seq<u8> {
    if bytes.len() > limit {
        bytes.skip(bytes.len() - limit)
    } else {
        bytes
    }
}

/// Follows the working directory that a shell reports through OSC 7, across chunks of output.
pub struct CwdTracker {
    buffer: Vec<u8>,
}

impl CwdTracker {
    /// The output held back, waiting for a report to complete.
    pub closed spec fn pending(&self) -> Seq<u8> {
        self.buffer@
    }

    pub closed spec fn well_formed(&self) -> bool {
        self.buffer@.len() <= OSC_BUFFER_LIMIT
    }

    /// A tracker that holds nothing.
    pub fn new() -> (tracker: Self)
        ensures
            tracker.pending() == Seq::<u8>::empty(),
            tracker.well_formed(),
    {
        CwdTracker { buffer: Vec::new() }
    }

    /// Takes a chunk of output. The tracker keeps the last `OSC_BUFFER_LIMIT` bytes of what it
    /// holds and the chunk; where they hold a complete report, it gives back the directory that
    /// the last one names and holds nothing more.
    pub fn process(&mut self, bytes: &[u8]) -> (cwd: Option<String>)
        requires
            old(self).well_formed(),
        ensures
            final(self).well_formed(),
            ({
                let kept = last_bytes(old(self).pending() + bytes@, OSC_BUFFER_LIMIT as nat);
                &&& match cwd {
                    Some(c) => osc7_cwd(kept) == Some(c@),
                    None => osc7_cwd(kept) is None,
                }
                &&& final(self).pending() == if cwd is Some {
                    Seq::<u8>::empty()
                } else {
                    kept
                }
            }),
    {
        let kept = keep_last(self.buffer.as_slice(), bytes, OSC_BUFFER_LIMIT);
        let cwd = extract_osc7_cwd(kept.as_slice());
        if cwd.is_some() {
            self.buffer = Vec::new();
        } else {
            self.buffer = kept;
        }
        cwd
    }
}

proof fn lemma_last_bytes_concat(front: Seq<u8>, back: Seq<u8>, limit: nat)
    ensures
        last_bytes(front + back, limit) == (if back.len() >= limit {
            Seq::<u8>::empty()
        } else if front.len() > limit - back.len() {
            front.skip(front.len() - (limit - back.len()))
        } else {
            front
        }) + (if back.len() >= limit {
            back.skip(back.len() - limit)
        } else {
            back
        }),
{
    let joined = front + back;
    if back.len() >= limit {
        if joined.len() > limit {
            assert(joined.skip(joined.len() - limit) =~= Seq::<u8>::empty() + back.skip(
                back.len() - limit,
            ));
        } else {
            assert(Seq::<u8>::empty() + back.skip(back.len() - limit) =~= joined);
        }
    } else if front.len() > limit - back.len() {
        assert(joined.skip(joined.len() - limit) =~= front.skip(front.len() - (limit - back.len()))
            + back);
    } else {
        assert(front + back =~= joined);
    }
}

/// The last `limit` bytes of `front` followed by `back`.
fn keep_last(front: &[u8], back: &[u8], limit: usize) -> (kept: Vec<u8>)
    ensures
        kept@ == last_bytes(front@ + back@, limit as nat),
        kept@.len() <= limit,
{
    let front_len = front.len();
    let back_len = back.len();
    let from_front: usize = if back_len >= limit {
        front_len
    } else if front_len > limit - back_len {
        front_len - (limit - back_len)
    } else {
        0
    };
    let from_back: usize = if back_len >= limit {
        back_len - limit
    } else {
        0
    };
    let mut kept = copy_bytes(front, from_front, front_len);
    let mut index: usize = from_back;
    while index < back_len
        invariant
            back_len == back@.len(),
            from_back <= index <= back_len,
            kept@ == front@.subrange(from_front as int, front_len as int) + back@.subrange(
                from_back as int,
                index as int,
            ),
        decreases back_len - index,
    {
        kept.push(back[index]);
        proof {
            assert(back@.subrange(from_back as int, index + 1) =~= back@.subrange(
                from_back as int,
                index as int,
            ).push(back@[index as int]));
        }
        index += 1;
    }
    proof {
        lemma_last_bytes_concat(front@, back@, limit as nat);
        if back_len >= limit {
            assert(front@.subrange(from_front as int, front_len as int) =~= Seq::<u8>::empty());
        } else if front_len > limit - back_len {
            assert(front@.subrange(from_front as int, front_len as int) =~= front@.skip(
                front@.len() - (limit - back@.len()),
            ));
        } else {
            assert(front@.subrange(from_front as int, front_len as int) =~= front@);
        }
        assert(back@.subrange(from_back as int, back_len as int) =~= (if back@.len() >= limit {
            back@.skip(back@.len() - limit)
        } else {
            back@
        }));
    }
    kept
}

/// How much output the daemon keeps per pane for a client that attaches later: 8 MiB.
pub const OUTPUT_LIMIT: usize = 8388608;

/// Appends a chunk of output to a pane's replay buffer, which keeps the last `OUTPUT_LIMIT`
/// bytes of all the output.
pub fn append_output(buffer: &mut Vec<u8>, bytes: &[u8])
    requires
        old(buffer)@.len() <= OUTPUT_LIMIT,
    ensures
        final(buffer)@ == last_bytes(old(buffer)@ + bytes@, OUTPUT_LIMIT as nat),
        final(buffer)@.len() <= OUTPUT_LIMIT,
{
    let kept = keep_last(buffer.as_slice(), bytes, OUTPUT_LIMIT);
    *buffer = kept;
}

} // verus!
