use vstd::prelude::*;
use vstd::utf8::{decode_utf8, encode_utf8, valid_utf8};

use crate::text::{chars_of, push_all, string_from_chars, text_equals};

verus! {

/// The parts of a parsed URL that a file path is made from.
pub struct UrlParts {
    /// The scheme, such as `file`.
    pub scheme: String,
    /// The host as the URL writes it, where it has one.
    pub host: Option<String>,
    /// The path segments, still percent-encoded; none for a URL that cannot be a base.
    pub segments: Option<Vec<String>>,
}

/// The parts of a parsed URL as plain values.
pub open spec fn url_parts_view(parts: Option<UrlParts>) -> Option<
    (Seq<char>, Option<Seq<char>>, Option<Seq<Seq<char>>>),
> {
    match parts {
        Some(p) => Some(
            (
                p.scheme@,
                match p.host {
                    Some(h) => Some(h@),
                    None => None,
                },
                match p.segments {
                    Some(s) => Some(s@.map_values(|segment: String| segment@)),
                    None => None,
                },
            ),
        ),
        None => None,
    }
}

/// What `url::Url::parse` reads from a text: its scheme, its host as written (`host_str`) and
/// its percent-encoded path segments (`path_segments`); nothing where the text is no URL.
pub uninterp spec fn parsed_url(text: Seq<char>) -> Option<
    (Seq<char>, Option<Seq<char>>, Option<Seq<Seq<char>>>),
>;

/// Parses a URL with `url::Url::parse` and hands back the scheme (`Url::scheme`), the host as
/// written (`Url::host_str`) and the path segments (`Url::path_segments`), each as owned text.
/// The contract names the result and claims only that it is a function of the text.
#[verifier::external_body]
fn parse_url(text: &str) -> (parts: Option<UrlParts>)
    ensures
        url_parts_view(parts) == parsed_url(text@),
{
    match url::Url::parse(text) {
        Ok(url) => Some(
            UrlParts {
                scheme: url.scheme().to_owned(),
                host: url.host_str().map(str::to_owned),
                segments: url.path_segments().map(|segments| segments.map(str::to_owned).collect()),
            },
        ),
        Err(_) => None,
    }
}

/// Reads bytes as UTF-8 text with `std::str::from_utf8`: the text they encode where they are
/// valid UTF-8, and nothing otherwise, as its documentation says.
#[verifier::external_body]
pub fn utf8_text(bytes: &[u8]) -> (text: Option<String>)
    ensures
        match text {
            Some(t) => valid_utf8(bytes@) && t@ == decode_utf8(bytes@),
            None => !valid_utf8(bytes@),
        },
{
    match std::str::from_utf8(bytes) {
        Ok(text) => Some(text.to_owned()),
        Err(_) => None,
    }
}

pub open spec fn is_hex_digit(b: u8) -> bool {
    (0x30 <= b <= 0x39) || (0x41 <= b <= 0x46) || (0x61 <= b <= 0x66)
}

pub open spec fn hex_value(b: u8) -> int {
    if 0x30 <= b <= 0x39 {
        b - 0x30
    } else if 0x41 <= b <= 0x46 {
        b - 0x41 + 10
    } else {
        b - 0x61 + 10
    }
}

/// Percent-decoding: each `%` followed by two hexadecimal digits stands for the byte they
/// spell; every other byte stands for itself.
pub open spec fn percent_decoded(bytes: Seq<u8>) -> Seq<u8>
    decreases bytes.len(),
{
    if bytes.len() == 0 {
        seq![]
    } else if bytes[0] == 0x25u8 && bytes.len() >= 3 && is_hex_digit(bytes[1]) && is_hex_digit(
        bytes[2],
    ) {
        seq![(hex_value(bytes[1]) * 16 + hex_value(bytes[2])) as u8] + percent_decoded(
            bytes.skip(3),
        )
    } else {
        seq![bytes[0]] + percent_decoded(bytes.skip(1))
    }
}

fn hex_digit_value(b: u8) -> (value: Option<u8>)
    ensures
        match value {
            Some(v) => is_hex_digit(b) && v == hex_value(b),
            None => !is_hex_digit(b),
        },
{
    if 0x30 <= b && b <= 0x39 {
        Some(b - 0x30)
    } else if 0x41 <= b && b <= 0x46 {
        Some(b - 0x41 + 10)
    } else if 0x61 <= b && b <= 0x66 {
        Some(b - 0x61 + 10)
    } else {
        None
    }
}

/// Percent-decodes bytes.
pub fn percent_decode(bytes: &[u8]) -> (decoded: Vec<u8>)
    ensures
        decoded@ == percent_decoded(bytes@),
{
    let mut decoded: Vec<u8> = Vec::new();
    let mut index: usize = 0;
    proof {
        assert(bytes@.skip(0) =~= bytes@);
    }
    while index < bytes.len()
        invariant
            index <= bytes@.len(),
            decoded@ + percent_decoded(bytes@.skip(index as int)) == percent_decoded(bytes@),
        decreases bytes@.len() - index,
    {
        let rest = Ghost(bytes@.skip(index as int));
        let b = bytes[index];
        let mut step: usize = 1;
        let mut out: u8 = b;
        if b == 0x25 && bytes.len() - index >= 3 {
            match (hex_digit_value(bytes[index + 1]), hex_digit_value(bytes[index + 2])) {
                (Some(high), Some(low)) => {
                    proof {
                        assert(high * 16 + low <= 255);
                    }
                    out = high * 16 + low;
                    step = 3;
                },
                _ => {},
            }
        }
        proof {
            assert(rest@[0] == b);
            if step == 3 {
                assert(rest@[1] == bytes@[index + 1]);
                assert(rest@[2] == bytes@[index + 2]);
                assert(rest@.skip(3) =~= bytes@.skip(index + 3));
            } else {
                assert(rest@.skip(1) =~= bytes@.skip(index + 1));
                if b == 0x25 && rest@.len() >= 3 {
                    assert(rest@[1] == bytes@[index + 1]);
                    assert(rest@[2] == bytes@[index + 2]);
                }
            }
            assert(percent_decoded(rest@) == seq![out] + percent_decoded(
                bytes@.skip(index + step),
            ));
            assert(decoded@.push(out) + percent_decoded(bytes@.skip(index + step)) =~= decoded@
                + (seq![out] + percent_decoded(bytes@.skip(index + step))));
        }
        decoded.push(out);
        index += step;
    }
    proof {
        assert(bytes@.skip(index as int) =~= Seq::<u8>::empty());
        assert(decoded@ + Seq::<u8>::empty() =~= decoded@);
    }
    decoded
}

pub open spec fn is_ascii_alpha(b: u8) -> bool {
    (0x41 <= b <= 0x5a) || (0x61 <= b <= 0x7a)
}

/// The drive that the first segment of a host-less file URL names: `C:` (or `C%3A`, `C%3a`)
/// becomes `C:`; anything else names no drive.
pub open spec fn drive_of(segment: Seq<char>) -> Option<Seq<char>> {
    let bytes = encode_utf8(segment);
    if bytes.len() == 2 && is_ascii_alpha(bytes[0]) && bytes[1] == 0x3au8 {
        Some(segment)
    } else if bytes.len() == 4 && is_ascii_alpha(bytes[0]) && bytes[1] == 0x25u8 && bytes[2]
        == 0x33u8 && (bytes[3] == 0x61u8 || bytes[3] == 0x41u8) {
        Some(seq![(bytes[0] as char), ':'])
    } else {
        None
    }
}

/// The path pieces for the segments: a backslash and the percent-decoded segment each; nothing
/// where a segment does not decode to UTF-8.
pub open spec fn joined_segments(segments: Seq<Seq<char>>) -> Option<Seq<char>>
    decreases segments.len(),
{
    if segments.len() == 0 {
        Some(seq![])
    } else {
        match joined_segments(segments.drop_last()) {
            Some(front) => {
                let bytes = percent_decoded(encode_utf8(segments.last()));
                if valid_utf8(bytes) {
                    Some(front + seq!['\\'] + decode_utf8(bytes))
                } else {
                    None
                }
            },
            None => None,
        }
    }
}

/// The Windows path of a file URL with the given host and path segments: `\\host` and then
/// every segment, or the drive of the first segment and then the others; each segment follows
/// a backslash, percent-decoded. A host of `localhost` counts as none.
pub open spec fn windows_file_path(host: Option<Seq<char>>, segments: Seq<Seq<char>>) -> Option<
    Seq<char>,
> {
    let remote = match host {
        Some(h) => h != "localhost"@,
        None => false,
    };
    let start: Option<Seq<char>> = if remote {
        Some(seq!['\\', '\\'] + host.unwrap())
    } else if segments.len() == 0 {
        None
    } else {
        drive_of(segments[0])
    };
    let rest = if remote {
        segments
    } else {
        segments.skip(1)
    };
    match (start, joined_segments(rest)) {
        (Some(s), Some(r)) => Some(s + r),
        _ => None,
    }
}

/// The Windows path that a `file:` URL names; nothing for another scheme, a URL that has no
/// path segments, or one that names no drive.
pub open spec fn file_url_path(uri: Seq<char>) -> Option<Seq<char>> {
    match parsed_url(uri) {
        Some((scheme, host, Some(segments))) => if scheme == "file"@ {
            windows_file_path(host, segments)
        } else {
            None
        },
        _ => None,
    }
}

fn segment_drive(segment: &String) -> (drive: Option<Vec<char>>)
    ensures
        match drive {
            Some(d) => drive_of(segment@) == Some(d@),
            None => drive_of(segment@) is None,
        },
{
    let bytes = segment.as_str().as_bytes();
    let len = bytes.len();
    if len == 2 {
        let b0 = bytes[0];
        if ((0x41 <= b0 && b0 <= 0x5a) || (0x61 <= b0 && b0 <= 0x7a)) && bytes[1] == 0x3a {
            return Some(chars_of(segment.as_str()));
        }
        return None;
    }
    if len == 4 {
        let b0 = bytes[0];
        if ((0x41 <= b0 && b0 <= 0x5a) || (0x61 <= b0 && b0 <= 0x7a)) && bytes[1] == 0x25
            && bytes[2] == 0x33 && (bytes[3] == 0x61 || bytes[3] == 0x41) {
            let mut drive: Vec<char> = Vec::new();
            drive.push(b0 as char);
            drive.push(':');
            proof {
                assert(drive@ =~= seq![(b0 as char), ':']);
            }
            return Some(drive);
        }
        return None;
    }
    None
}

fn join_segments(segments: &Vec<String>, first: usize) -> (joined: Option<Vec<char>>)
    requires
        first <= segments@.len(),
    ensures
        match joined {
            Some(j) => joined_segments(
                segments@.skip(first as int).map_values(|s: String| s@),
            ) == Some(j@),
            None => joined_segments(segments@.skip(first as int).map_values(|s: String| s@)) is None,
        },
{
    let ghost all = segments@.skip(first as int).map_values(|s: String| s@);
    let mut out: Vec<char> = Vec::new();
    let mut index: usize = first;
    proof {
        assert(all.take(0) =~= Seq::<Seq<char>>::empty());
    }
    while index < segments.len()
        invariant
            first <= index <= segments@.len(),
            all == segments@.skip(first as int).map_values(|s: String| s@),
            joined_segments(all.take(index - first)) == Some(out@),
        decreases segments@.len() - index,
    {
        let segment = segments[index].as_str();
        let decoded = percent_decode(segment.as_bytes());
        proof {
            assert(all.take(index - first + 1).drop_last() =~= all.take(index - first));
            assert(all.take(index - first + 1).last() == segments@[index as int]@);
        }
        match utf8_text(decoded.as_slice()) {
            Some(text) => {
                out.push('\\');
                push_all(&mut out, &chars_of(text.as_str()));
            },
            None => {
                proof {
                    lemma_joined_none_grows(all, index - first + 1);
                }
                return None;
            },
        }
        index += 1;
    }
    proof {
        assert(all.take(index - first) =~= all);
    }
    Some(out)
}

proof fn lemma_joined_none_grows(segments: Seq<Seq<char>>, count: int)
    requires
        0 <= count <= segments.len(),
        joined_segments(segments.take(count)) is None,
    ensures
        joined_segments(segments) is None,
    decreases segments.len(),
{
    if count < segments.len() {
        assert(segments.drop_last().take(count) =~= segments.take(count));
        lemma_joined_none_grows(segments.drop_last(), count);
    } else {
        assert(segments.take(count) =~= segments);
    }
}

/// The characters of an optional text.
pub open spec fn optional_chars(text: Option<String>) -> Option<Seq<char>> {
    match text {
        Some(t) => Some(t@),
        None => None,
    }
}

/// The Windows path of a file URL with the given host and path segments.
pub fn windows_path(host: Option<String>, segments: &Vec<String>) -> (path: Option<String>)
    ensures
        match path {
            Some(p) => windows_file_path(optional_chars(host), segments@.map_values(|s: String| s@))
                == Some(p@),
            None => windows_file_path(optional_chars(host), segments@.map_values(|s: String| s@))
                is None,
        },
{
    let ghost host_view = optional_chars(host);
    let ghost views = segments@.map_values(|s: String| s@);
    let remote = match &host {
        Some(h) => !text_equals(h.as_str(), "localhost"),
        None => false,
    };
    let mut out: Vec<char> = Vec::new();
    let first: usize = if remote {
        out.push('\\');
        out.push('\\');
        match &host {
            Some(h) => push_all(&mut out, &chars_of(h.as_str())),
            None => {},
        }
        proof {
            assert(out@ =~= seq!['\\', '\\'] + host_view.unwrap());
        }
        0
    } else {
        if segments.len() == 0 {
            return None;
        }
        match segment_drive(&segments[0]) {
            Some(drive) => {
                push_all(&mut out, &drive);
                proof {
                    assert(views[0] == segments@[0]@);
                }
            },
            None => {
                proof {
                    assert(views[0] == segments@[0]@);
                }
                return None;
            },
        }
        1
    };
    proof {
        assert(segments@.skip(first as int).map_values(|s: String| s@) =~= if remote {
            views
        } else {
            views.skip(1)
        });
    }
    match join_segments(segments, first) {
        Some(rest) => {
            push_all(&mut out, &rest);
            Some(string_from_chars(&out))
        },
        None => None,
    }
}

/// The Windows path that a `file:` URL names.
pub fn file_url_to_path(uri: &str) -> (path: Option<String>)
    ensures
        match path {
            Some(p) => file_url_path(uri@) == Some(p@),
            None => file_url_path(uri@) is None,
        },
{
    match parse_url(uri) {
        Some(parts) => {
            if !text_equals(parts.scheme.as_str(), "file") {
                return None;
            }
            match parts.segments {
                Some(segments) => windows_path(parts.host, &segments),
                None => None,
            }
        },
        None => None,
    }
}

} // verus!
