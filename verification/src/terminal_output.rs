use vstd::prelude::*;
use vstd::utf8::{decode_utf8, valid_utf8};

use crate::file_url::utf8_text;
use crate::osc::{
    copy_bytes, find_bytes, first_occurrence, longest_partial, partial_sequence_suffix,
    string_terminator,
};
use crate::text::{chars_of, string_from_chars, trim_chars, trimmed};

verus! {

/// The bytes that open a recent-command report: `ESC ] 6973 ;`.
pub open spec fn recent_command_prefix() -> Seq<u8> {
    seq![0x1bu8, 0x5du8, 0x36u8, 0x39u8, 0x37u8, 0x33u8, 0x3bu8]
}

/// The bytes that open a clipboard write: `ESC ] 52 ; c ;`.
pub open spec fn clipboard_prefix() -> Seq<u8> {
    seq![0x1bu8, 0x5du8, 0x35u8, 0x32u8, 0x3bu8, 0x63u8, 0x3bu8]
}

/// The bytes that begin a synchronized update: `ESC [ ? 2026 h`.
pub open spec fn sync_begin() -> Seq<u8> {
    seq![0x1bu8, 0x5bu8, 0x3fu8, 0x32u8, 0x30u8, 0x32u8, 0x36u8, 0x68u8]
}

/// The bytes that end a synchronized update: `ESC [ ? 2026 l`.
pub open spec fn sync_end() -> Seq<u8> {
    seq![0x1bu8, 0x5bu8, 0x3fu8, 0x32u8, 0x30u8, 0x32u8, 0x36u8, 0x6cu8]
}

/// The longest recent command that is kept, in bytes.
pub const RECENT_COMMAND_LIMIT: usize = 4096;

/// How much output a synchronized update may hold back before it is shown anyway: 1 MiB.
pub const SYNCHRONIZED_OUTPUT_LIMIT: usize = 1048576;

/// Where the first complete OSC sequence opened by `prefix` lies in `pending`: its start, the
/// end of its payload, and its end. The payload ends at its first BEL or, where it has none, at
/// its first `ESC \`; the sequence ends after that terminator.
pub open spec fn osc_span(pending: Seq<u8>, prefix: Seq<u8>) -> Option<(int, int, int)> {
    match first_occurrence(pending, prefix) {
        Some(start) => {
            let value_start = start + prefix.len();
            let rest = pending.skip(value_start);
            match first_occurrence(rest, seq![0x07u8]) {
                Some(bell) => Some((start, value_start + bell, value_start + bell + 1)),
                None => match first_occurrence(rest, string_terminator()) {
                    Some(st) => Some((start, value_start + st, value_start + st + 2)),
                    None => None,
                },
            }
        },
        None => None,
    }
}

proof fn lemma_first_occurrence_at(haystack: Seq<u8>, needle: Seq<u8>)
    requires
        needle.len() > 0,
    ensures
        first_occurrence(haystack, needle) matches Some(at) ==> 0 <= at && at + needle.len()
            <= haystack.len() && haystack.subrange(at, at + needle.len()) == needle,
{
    crate::osc::lemma_first_occurrence_found(haystack, needle);
}

proof fn lemma_osc_span_bounds(pending: Seq<u8>, prefix: Seq<u8>)
    requires
        prefix.len() > 0,
    ensures
        osc_span(pending, prefix) matches Some((start, end, sequence_end)) ==> 0 <= start && start
            + prefix.len() <= end < sequence_end <= pending.len(),
{
    lemma_first_occurrence_at(pending, prefix);
    if let Some(start) = first_occurrence(pending, prefix) {
        let rest = pending.skip(start + prefix.len());
        lemma_first_occurrence_at(rest, seq![0x07u8]);
        lemma_first_occurrence_at(rest, string_terminator());
    }
}

fn find_osc_span(pending: &[u8], prefix: &[u8]) -> (span: Option<(usize, usize, usize)>)
    requires
        prefix@.len() > 0,
    ensures
        match span {
            Some((start, end, sequence_end)) => osc_span(pending@, prefix@) == Some(
                (start as int, end as int, sequence_end as int),
            ),
            None => osc_span(pending@, prefix@) is None,
        },
{
    let total = pending.len();
    proof {
        lemma_osc_span_bounds(pending@, prefix@);
        lemma_first_occurrence_at(pending@, prefix@);
    }
    let start = match find_bytes(pending, prefix) {
        Some(start) => start,
        None => return None,
    };
    let value_start = start + prefix.len();
    let rest = copy_bytes(pending, value_start, total);
    proof {
        assert(rest@ =~= pending@.skip(value_start as int));
        lemma_first_occurrence_at(rest@, seq![0x07u8]);
        lemma_first_occurrence_at(rest@, string_terminator());
    }
    let bell: Vec<u8> = vec![0x07];
    let terminator: Vec<u8> = vec![0x1b, 0x5c];
    proof {
        assert(bell@ =~= seq![0x07u8]);
        assert(terminator@ =~= string_terminator());
    }
    match find_bytes(rest.as_slice(), bell.as_slice()) {
        Some(b) => Some((start, value_start + b, value_start + b + 1)),
        None => match find_bytes(rest.as_slice(), terminator.as_slice()) {
            Some(t) => Some((start, value_start + t, value_start + t + 2)),
            None => None,
        },
    }
}

/// `bytes` without `bytes[start..end]`.
pub open spec fn without_range(bytes: Seq<u8>, start: int, end: int) -> Seq<u8> {
    bytes.take(start) + bytes.skip(end)
}

fn remove_range(bytes: &mut Vec<u8>, start: usize, end: usize)
    requires
        start <= end <= old(bytes)@.len(),
    ensures
        final(bytes)@ == without_range(old(bytes)@, start as int, end as int),
{
    let total = bytes.len();
    let mut kept = copy_bytes(bytes.as_slice(), 0, start);
    let mut index: usize = end;
    while index < total
        invariant
            total == bytes@.len(),
            end <= index <= total,
            kept@ == bytes@.take(start as int) + bytes@.subrange(end as int, index as int),
        decreases total - index,
    {
        kept.push(bytes[index]);
        proof {
            assert(bytes@.subrange(end as int, index + 1) =~= bytes@.subrange(end as int, index as int).push(
                bytes@[index as int],
            ));
        }
        index += 1;
    }
    proof {
        assert(bytes@.subrange(end as int, total as int) =~= bytes@.skip(end as int));
    }
    *bytes = kept;
}

/// What the standard base64 engine of the `base64` crate (`general_purpose::STANDARD`)
/// decodes from the bytes; nothing where they are not valid padded standard base64.
pub uninterp spec fn base64_decoded(encoded: Seq<u8>) -> Option<Seq<u8>>;

/// Decodes with `base64::engine::general_purpose::STANDARD` through `Engine::decode`. The
/// contract names the result and claims only that it is a function of the input.
#[verifier::external_body]
fn decode_base64(encoded: &[u8]) -> (decoded: Option<Vec<u8>>)
    ensures
        match decoded {
            Some(d) => base64_decoded(encoded@) == Some(d@),
            None => base64_decoded(encoded@) is None,
        },
{
    base64::Engine::decode(&base64::engine::general_purpose::STANDARD, encoded).ok()
}

/// The command that the decoded bytes of a recent-command report carry: at most
/// `RECENT_COMMAND_LIMIT` bytes of UTF-8, trimmed, and not empty.
pub open spec fn command_in_bytes(bytes: Seq<u8>) -> Option<Seq<char>> {
    if bytes.len() <= RECENT_COMMAND_LIMIT && valid_utf8(bytes) && trimmed(decode_utf8(bytes)).len()
        > 0 {
        Some(trimmed(decode_utf8(bytes)))
    } else {
        None
    }
}

/// The command that a recent-command payload reports: the command in its base64-decoded bytes.
pub open spec fn reported_command(payload: Seq<u8>) -> Option<Seq<char>> {
    match base64_decoded(payload) {
        Some(bytes) => command_in_bytes(bytes),
        None => None,
    }
}

/// Reads the command that the decoded bytes of a recent-command report carry.
pub fn command_from_decoded(decoded: &[u8]) -> (command: Option<String>)
    ensures
        match command {
            Some(c) => command_in_bytes(decoded@) == Some(c@),
            None => command_in_bytes(decoded@) is None,
        },
{
    if decoded.len() > RECENT_COMMAND_LIMIT {
        return None;
    }
    let text = match utf8_text(decoded) {
        Some(t) => t,
        None => return None,
    };
    let trimmed_text = trim_chars(&chars_of(text.as_str()));
    if trimmed_text.len() == 0 {
        return None;
    }
    Some(string_from_chars(&trimmed_text))
}

/// Reads the command that a recent-command payload reports.
pub fn command_from_payload(payload: &[u8]) -> (command: Option<String>)
    ensures
        match command {
            Some(c) => reported_command(payload@) == Some(c@),
            None => reported_command(payload@) is None,
        },
{
    match decode_base64(payload) {
        Some(decoded) => command_from_decoded(decoded.as_slice()),
        None => None,
    }
}

/// The text that a clipboard payload carries: the payload base64-decoded as UTF-8.
pub open spec fn clipboard_text(payload: Seq<u8>) -> Option<Seq<char>> {
    match base64_decoded(payload) {
        Some(bytes) => if valid_utf8(bytes) {
            Some(decode_utf8(bytes))
        } else {
            None
        },
        None => None,
    }
}

/// Reads the text that a clipboard payload carries.
pub fn text_from_clipboard_payload(payload: &[u8]) -> (text: Option<String>)
    ensures
        match text {
            Some(t) => clipboard_text(payload@) == Some(t@),
            None => clipboard_text(payload@) is None,
        },
{
    match decode_base64(payload) {
        Some(decoded) => utf8_text(decoded.as_slice()),
        None => None,
    }
}

/// What taking out every complete recent-command report leaves: the output without them, and
/// the last command that one of them reported (or `recent`, where none did).
pub open spec fn after_recent_commands(pending: Seq<u8>, recent: Option<Seq<char>>) -> (
    Seq<u8>,
    Option<Seq<char>>,
)
    decreases pending.len(),
{
    match osc_span(pending, recent_command_prefix()) {
        Some((start, end, sequence_end)) => if 0 <= start < sequence_end <= pending.len() && start
            <= end {
            let command = reported_command(pending.subrange(start + 7, end));
            after_recent_commands(
                without_range(pending, start, sequence_end),
                if command is Some {
                    command
                } else {
                    recent
                },
            )
        } else {
            (pending, recent)
        },
        None => (pending, recent),
    }
}

/// Takes every complete recent-command report out of the pending output, remembering the last
/// command reported.
pub fn capture_recent_commands(pending: &mut Vec<u8>, recent: &mut Option<String>)
    ensures
        ({
            let (rest, command) = after_recent_commands(
                old(pending)@,
                match *old(recent) {
                    Some(r) => Some(r@),
                    None => None,
                },
            );
            &&& final(pending)@ == rest
            &&& match *final(recent) {
                Some(r) => command == Some(r@),
                None => command is None,
            }
        }),
{
    let prefix: Vec<u8> = vec![0x1b, 0x5d, 0x36, 0x39, 0x37, 0x33, 0x3b];
    proof {
        assert(prefix@ =~= recent_command_prefix());
    }
    loop
        invariant
            prefix@ == recent_command_prefix(),
            after_recent_commands(
                old(pending)@,
                match *old(recent) {
                    Some(r) => Some(r@),
                    None => None,
                },
            ) == after_recent_commands(
                pending@,
                match *recent {
                    Some(r) => Some(r@),
                    None => None,
                },
            ),
        decreases pending@.len(),
    {
        proof {
            lemma_osc_span_bounds(pending@, recent_command_prefix());
        }
        match find_osc_span(pending.as_slice(), prefix.as_slice()) {
            None => {
                return;
            },
            Some((start, end, sequence_end)) => {
                let payload = copy_bytes(pending.as_slice(), start + 7, end);
                let command = command_from_payload(payload.as_slice());
                if command.is_some() {
                    *recent = command;
                }
                remove_range(pending, start, sequence_end);
            },
        }
    }
}

/// What taking out every complete clipboard write leaves: the output without them, and the
/// texts that they carry (those that decode), in order.
pub open spec fn after_clipboard_writes(pending: Seq<u8>) -> (Seq<u8>, Seq<Seq<char>>)
    decreases pending.len(),
{
    match osc_span(pending, clipboard_prefix()) {
        Some((start, end, sequence_end)) => if 0 <= start < sequence_end <= pending.len() && start
            <= end {
            let text = clipboard_text(pending.subrange(start + 7, end));
            let (rest, later) = after_clipboard_writes(without_range(pending, start, sequence_end));
            (
                rest,
                match text {
                    Some(t) => seq![t] + later,
                    None => later,
                },
            )
        } else {
            (pending, seq![])
        },
        None => (pending, seq![]),
    }
}

/// Takes every complete clipboard write out of the pending output and gives back the texts to
/// put on the clipboard, in order.
pub fn take_clipboard_writes(pending: &mut Vec<u8>) -> (texts: Vec<String>)
    ensures
        ({
            let (rest, carried) = after_clipboard_writes(old(pending)@);
            final(pending)@ == rest && texts@.map_values(|t: String| t@) == carried
        }),
{
    let prefix: Vec<u8> = vec![0x1b, 0x5d, 0x35, 0x32, 0x3b, 0x63, 0x3b];
    proof {
        assert(prefix@ =~= clipboard_prefix());
    }
    let mut texts: Vec<String> = Vec::new();
    loop
        invariant
            prefix@ == clipboard_prefix(),
            after_clipboard_writes(old(pending)@).0 == after_clipboard_writes(pending@).0,
            after_clipboard_writes(old(pending)@).1 == texts@.map_values(|t: String| t@)
                + after_clipboard_writes(pending@).1,
        decreases pending@.len(),
    {
        proof {
            lemma_osc_span_bounds(pending@, clipboard_prefix());
        }
        match find_osc_span(pending.as_slice(), prefix.as_slice()) {
            None => {
                proof {
                    assert(texts@.map_values(|t: String| t@) + Seq::<Seq<char>>::empty()
                        =~= texts@.map_values(|t: String| t@));
                }
                return texts;
            },
            Some((start, end, sequence_end)) => {
                let payload = copy_bytes(pending.as_slice(), start + 7, end);
                let text = text_from_clipboard_payload(payload.as_slice());
                let ghost before = pending@;
                let ghost earlier = texts@.map_values(|t: String| t@);
                remove_range(pending, start, sequence_end);
                match text {
                    Some(t) => {
                        texts.push(t);
                        proof {
                            assert(texts@.map_values(|t: String| t@) =~= earlier.push(t@));
                            assert(earlier.push(t@) + after_clipboard_writes(pending@).1 =~= earlier
                                + (seq![t@] + after_clipboard_writes(pending@).1));
                        }
                    },
                    None => {},
                }
                proof {
                    assert(pending@ == without_range(before, start as int, sequence_end as int));
                }
            },
        }
    }
}

/// What the framing of pending output does: the chunks to show, in order, the output still
/// held back, whether a synchronized update is still open, and whether one opened. In an open
/// update the output is held back until its end marker, until it grows to
/// `SYNCHRONIZED_OUTPUT_LIMIT`, or, for an update that was already open (`expired` telling
/// whether its time ran out), until it times out. Outside one, everything before a begin marker
/// is shown, and of the rest all but a possible beginning of a begin marker.
pub open spec fn framed_output(pending: Seq<u8>, synchronized: bool, expired: bool) -> (
    Seq<Seq<u8>>,
    Seq<u8>,
    bool,
    bool,
)
    decreases pending.len(), if synchronized {
        0int
    } else {
        1int
    },
{
    if synchronized {
        match first_occurrence(pending, sync_end()) {
            Some(end) => if 0 <= end && end + 8 <= pending.len() {
                let (chunks, rest, still, opened) = framed_output(
                    pending.skip(end + 8),
                    false,
                    false,
                );
                (seq![pending.take(end + 8)] + chunks, rest, still, opened)
            } else {
                (seq![], pending, true, false)
            },
            None => if pending.len() >= SYNCHRONIZED_OUTPUT_LIMIT || expired {
                (seq![pending], seq![], false, false)
            } else {
                (seq![], pending, true, false)
            },
        }
    } else {
        match first_occurrence(pending, sync_begin()) {
            Some(begin) => if 0 <= begin <= pending.len() {
                let (chunks, rest, still, _opened) = framed_output(pending.skip(begin), true, false);
                (seq![pending.take(begin)] + chunks, rest, still, true)
            } else {
                (seq![], pending, false, false)
            },
            None => {
                let keep = longest_partial(pending, sync_begin(), 7);
                (
                    seq![pending.take(pending.len() - keep)],
                    pending.skip(pending.len() - keep),
                    false,
                    false,
                )
            },
        }
    }
}

/// The concatenation of chunks.
pub open spec fn joined_chunks(chunks: Seq<Seq<u8>>) -> Seq<u8>
    decreases chunks.len(),
{
    if chunks.len() == 0 {
        seq![]
    } else {
        chunks[0] + joined_chunks(chunks.drop_first())
    }
}

proof fn lemma_longest_partial_bounds(bytes: Seq<u8>, sequence: Seq<u8>, length: int)
    requires
        length <= sequence.len(),
    ensures
        0 <= longest_partial(bytes, sequence, length),
        length >= 0 ==> longest_partial(bytes, sequence, length) <= length,
        longest_partial(bytes, sequence, length) <= bytes.len(),
    decreases length,
{
    if length > 0 {
        lemma_longest_partial_bounds(bytes, sequence, length - 1);
        if crate::osc::ends_with_bytes(bytes, sequence.take(length)) {
            assert(sequence.take(length).len() <= bytes.len());
        }
    }
}

/// Framing keeps every byte: the chunks shown followed by what is held back are the output
/// that was pending, in order.
pub proof fn framing_keeps_every_byte(pending: Seq<u8>, synchronized: bool, expired: bool)
    ensures
        ({
            let (chunks, rest, _still, _opened) = framed_output(pending, synchronized, expired);
            joined_chunks(chunks) + rest == pending
        }),
    decreases pending.len(), if synchronized {
        0int
    } else {
        1int
    },
{
    if synchronized {
        match first_occurrence(pending, sync_end()) {
            Some(end) => if 0 <= end && end + 8 <= pending.len() {
                framing_keeps_every_byte(pending.skip(end + 8), false, false);
                let (chunks, rest, still, opened) = framed_output(pending.skip(end + 8), false, false);
                let all = seq![pending.take(end + 8)] + chunks;
                assert(all.drop_first() =~= chunks);
                assert(joined_chunks(all) + rest =~= pending.take(end + 8) + (joined_chunks(chunks)
                    + rest));
                assert(pending.take(end + 8) + pending.skip(end + 8) =~= pending);
            } else {
                assert(joined_chunks(Seq::<Seq<u8>>::empty()) + pending =~= pending);
            },
            None => if pending.len() >= SYNCHRONIZED_OUTPUT_LIMIT || expired {
                let all = seq![pending];
                assert(all.drop_first() =~= Seq::<Seq<u8>>::empty());
                assert(joined_chunks(all.drop_first()) == Seq::<u8>::empty());
                assert(joined_chunks(all) + Seq::<u8>::empty() =~= pending);
            } else {
                assert(joined_chunks(Seq::<Seq<u8>>::empty()) + pending =~= pending);
            },
        }
    } else {
        match first_occurrence(pending, sync_begin()) {
            Some(begin) => if 0 <= begin <= pending.len() {
                framing_keeps_every_byte(pending.skip(begin), true, false);
                let (chunks, rest, still, _opened) = framed_output(pending.skip(begin), true, false);
                let all = seq![pending.take(begin)] + chunks;
                assert(all.drop_first() =~= chunks);
                assert(joined_chunks(all) + rest =~= pending.take(begin) + (joined_chunks(chunks)
                    + rest));
                assert(pending.take(begin) + pending.skip(begin) =~= pending);
            } else {
                assert(joined_chunks(Seq::<Seq<u8>>::empty()) + pending =~= pending);
            },
            None => {
                let keep = longest_partial(pending, sync_begin(), 7);
                lemma_longest_partial_bounds(pending, sync_begin(), 7);
                let all = seq![pending.take(pending.len() - keep)];
                assert(all.drop_first() =~= Seq::<Seq<u8>>::empty());
                assert(joined_chunks(all.drop_first()) == Seq::<u8>::empty());
                assert(joined_chunks(all) + pending.skip(pending.len() - keep) =~= pending);
            },
        }
    }
}

/// What one round of framing hands back: the chunks to show, in order, and whether a
/// synchronized update opened during it.
pub struct FramedOutput {
    pub chunks: Vec<Vec<u8>>,
    pub opened: bool,
}

/// Frames the pending output: moves out the chunks that can be shown now and keeps the rest,
/// following synchronized updates (see `framed_output`).
pub fn frame_output(pending: &mut Vec<u8>, synchronized: &mut bool, expired: bool) -> (framed:
    FramedOutput)
    ensures
        ({
            let (chunks, rest, still, opened) = framed_output(old(pending)@, *old(synchronized), expired);
            &&& framed.chunks@.map_values(|c: Vec<u8>| c@) == chunks
            &&& final(pending)@ == rest
            &&& *final(synchronized) == still
            &&& framed.opened == opened
        }),
{
    let begin_marker: Vec<u8> = vec![0x1b, 0x5b, 0x3f, 0x32, 0x30, 0x32, 0x36, 0x68];
    let end_marker: Vec<u8> = vec![0x1b, 0x5b, 0x3f, 0x32, 0x30, 0x32, 0x36, 0x6c];
    proof {
        assert(begin_marker@ =~= sync_begin());
        assert(end_marker@ =~= sync_end());
    }
    let ghost target = framed_output(pending@, *synchronized, expired);
    let mut chunks: Vec<Vec<u8>> = Vec::new();
    let mut opened = false;
    let mut expired_now = expired;
    loop
        invariant
            begin_marker@ == sync_begin(),
            end_marker@ == sync_end(),
            target == framed_output(old(pending)@, *old(synchronized), expired),
            ({
                let (later, rest, still, later_opened) = framed_output(
                    pending@,
                    *synchronized,
                    expired_now,
                );
                &&& target.0 == chunks@.map_values(|c: Vec<u8>| c@) + later
                &&& target.1 == rest
                &&& target.2 == still
                &&& target.3 == (opened || later_opened)
            }),
        decreases pending@.len(), if *synchronized {
            0int
        } else {
            1int
        },
    {
        let ghost before = pending@;
        let ghost done = chunks@.map_values(|c: Vec<u8>| c@);
        let total = pending.len();
        if *synchronized {
            proof {
                lemma_first_occurrence_at(pending@, sync_end());
            }
            match find_bytes(pending.as_slice(), end_marker.as_slice()) {
                Some(end) => {
                    let frame_end = end + 8;
                    let chunk = copy_bytes(pending.as_slice(), 0, frame_end);
                    let rest = copy_bytes(pending.as_slice(), frame_end, total);
                    chunks.push(chunk);
                    *pending = rest;
                    *synchronized = false;
                    expired_now = false;
                    proof {
                        assert(chunk@ =~= before.take(end + 8));
                        assert(rest@ =~= before.skip(end + 8));
                        assert(chunks@.map_values(|c: Vec<u8>| c@) =~= done.push(chunk@));
                        let (later, r, s, o) = framed_output(pending@, false, false);
                        assert(done.push(chunk@) + later =~= done + (seq![chunk@] + later));
                    }
                },
                None => {
                    if pending.len() >= SYNCHRONIZED_OUTPUT_LIMIT || expired_now {
                        let all = copy_bytes(pending.as_slice(), 0, pending.len());
                        chunks.push(all);
                        *pending = Vec::new();
                        *synchronized = false;
                        proof {
                            assert(all@ =~= before);
                            assert(chunks@.map_values(|c: Vec<u8>| c@) =~= done + seq![before]);
                            assert(pending@ =~= Seq::<u8>::empty());
                        }
                    } else {
                        proof {
                            assert(done + Seq::<Seq<u8>>::empty() =~= done);
                        }
                    }
                    return FramedOutput { chunks, opened };
                },
            }
        } else {
            proof {
                lemma_first_occurrence_at(pending@, sync_begin());
            }
            match find_bytes(pending.as_slice(), begin_marker.as_slice()) {
                Some(begin) => {
                    let chunk = copy_bytes(pending.as_slice(), 0, begin);
                    let rest = copy_bytes(pending.as_slice(), begin, pending.len());
                    chunks.push(chunk);
                    *pending = rest;
                    *synchronized = true;
                    expired_now = false;
                    opened = true;
                    proof {
                        assert(chunk@ =~= before.take(begin as int));
                        assert(rest@ =~= before.skip(begin as int));
                        assert(chunks@.map_values(|c: Vec<u8>| c@) =~= done.push(chunk@));
                        let (later, r, s, o) = framed_output(pending@, true, false);
                        assert(done.push(chunk@) + later =~= done + (seq![chunk@] + later));
                    }
                },
                None => {
                    let retained = partial_sequence_suffix(pending.as_slice(), begin_marker.as_slice());
                    proof {
                        lemma_longest_partial_bounds(before, sync_begin(), 7);
                    }
                    let process_end = pending.len() - retained;
                    let chunk = copy_bytes(pending.as_slice(), 0, process_end);
                    let rest = copy_bytes(pending.as_slice(), process_end, pending.len());
                    chunks.push(chunk);
                    *pending = rest;
                    proof {
                        assert(chunk@ =~= before.take(before.len() - retained));
                        assert(rest@ =~= before.skip(before.len() - retained));
                        assert(chunks@.map_values(|c: Vec<u8>| c@) =~= done + seq![chunk@]);
                    }
                    return FramedOutput { chunks, opened };
                },
            }
        }
    }
}

/// Once the recent-command reports are taken out, no complete one is left in the output.
pub proof fn capture_leaves_no_complete_report(pending: Seq<u8>, recent: Option<Seq<char>>)
    ensures
        osc_span(after_recent_commands(pending, recent).0, recent_command_prefix()) is None,
    decreases pending.len(),
{
    lemma_osc_span_bounds(pending, recent_command_prefix());
    match osc_span(pending, recent_command_prefix()) {
        Some((start, end, sequence_end)) => {
            let command = reported_command(pending.subrange(start + 7, end));
            capture_leaves_no_complete_report(
                without_range(pending, start, sequence_end),
                if command is Some {
                    command
                } else {
                    recent
                },
            );
        },
        None => {},
    }
}

/// Once the clipboard writes are taken out, no complete one is left in the output.
pub proof fn clipboard_capture_leaves_no_complete_write(pending: Seq<u8>)
    ensures
        osc_span(after_clipboard_writes(pending).0, clipboard_prefix()) is None,
    decreases pending.len(),
{
    lemma_osc_span_bounds(pending, clipboard_prefix());
    match osc_span(pending, clipboard_prefix()) {
        Some((start, end, sequence_end)) => {
            clipboard_capture_leaves_no_complete_write(without_range(pending, start, sequence_end));
        },
        None => {},
    }
}

} // verus!
