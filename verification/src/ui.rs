use vstd::prelude::*;

use crate::ids::{PaneId, WorkspaceId};
use crate::layout::{MAX_TERMINALS_PER_WORKSPACE, SplitDirection};
use crate::protocol::ClientRequest;
use crate::seq_facts::{first_index, lemma_first_index_bounds};
use crate::workspace::SessionStatus;
use crate::text::{
    copy_range, skip_chars,
    chars_of, contains_chars, has_prefix, has_substring, is_whitespace_char,
    lowercase_ascii, push_all, starts_with_chars, string_from_chars,
    text_equals, to_ascii_lowercase, trim_chars, trimmed, char_is_whitespace,
};

verus! {

/// A group of command-palette entries.
#[derive(Clone, Copy, Debug, PartialEq, Eq, Structural)]
pub enum PaletteGroup {
    Actions,
    Navigation,
}

impl PaletteGroup {
    /// The group's heading.
    pub fn label(self) -> (label: &'static str)
        ensures
            self is Actions ==> label@ == "Actions"@,
            self is Navigation ==> label@ == "Navigation"@,
    {
        match self {
            PaletteGroup::Actions => "Actions",
            PaletteGroup::Navigation => "Navigation",
        }
    }
}

/// A page of the settings screen.
#[derive(Clone, Copy, Debug, PartialEq, Eq, Structural)]
pub enum SettingsSection {
    General,
    Appearance,
    Keyboard,
    Advanced,
}

impl SettingsSection {
    /// The page's title.
    pub fn label(self) -> (label: &'static str)
        ensures
            self is General ==> label@ == "General"@,
            self is Appearance ==> label@ == "Appearance"@,
            self is Keyboard ==> label@ == "Keyboard"@,
            self is Advanced ==> label@ == "Advanced"@,
    {
        match self {
            SettingsSection::General => "General",
            SettingsSection::Appearance => "Appearance",
            SettingsSection::Keyboard => "Keyboard",
            SettingsSection::Advanced => "Advanced",
        }
    }
}

/// Whether a palette entry labelled `label` matches the typed `query`: an empty (or blank)
/// query matches everything; otherwise the trimmed query must occur in the label, ignoring
/// ASCII case.
pub open spec fn palette_match(label: Seq<char>, query: Seq<char>) -> bool {
    trimmed(query).len() == 0 || has_substring(lowercase_ascii(label), lowercase_ascii(trimmed(query)))
}

/// Command-palette search: case-insensitive (for ASCII) substring match of the trimmed query.
pub fn palette_matches(label: &str, query: &str) -> (matched: bool)
    ensures
        matched == palette_match(label@, query@),
{
    let query = trim_chars(&chars_of(query));
    if query.len() == 0 {
        return true;
    }
    let label_lower = to_ascii_lowercase(&chars_of(label));
    let query_lower = to_ascii_lowercase(&query);
    contains_chars(&label_lower, &query_lower)
}

/// `text` when it has at most `max_chars` characters, else its first `max_chars - 3` characters
/// (none when `max_chars < 3`) followed by `...`.
pub open spec fn compacted(text: Seq<char>, max_chars: nat) -> Seq<char> {
    if text.len() <= max_chars {
        text
    } else {
        text.take(if max_chars >= 3 { max_chars - 3 } else { 0 }) + seq!['.', '.', '.']
    }
}

/// Shortens a name to at most `max_chars` characters, marking the cut with `...`.
pub fn compact_text(text: &str, max_chars: usize) -> (compact: String)
    ensures
        compact@ == compacted(text@, max_chars as nat),
{
    let chars = chars_of(text);
    if chars.len() <= max_chars {
        return string_from_chars(&chars);
    }
    let keep = if max_chars >= 3 {
        max_chars - 3
    } else {
        0
    };
    let mut out: Vec<char> = Vec::new();
    let mut index: usize = 0;
    while index < keep
        invariant
            keep < chars@.len(),
            index <= keep,
            out@ == chars@.take(index as int),
        decreases keep - index,
    {
        out.push(chars[index]);
        proof {
            assert(chars@.take(index + 1) =~= chars@.take(index as int).push(chars@[index as int]));
        }
        index += 1;
    }
    out.push('.');
    out.push('.');
    out.push('.');
    proof {
        assert(out@ =~= compacted(text@, max_chars as nat));
    }
    string_from_chars(&out)
}

/// The words of a text joined by single spaces, as `split_whitespace` then `join(" ")` give
/// them. `started` tells whether a word was already written; `pending` whether whitespace came
/// after it.
pub open spec fn squeezed(text: Seq<char>, started: bool, pending: bool) -> Seq<char>
    decreases text.len(),
{
    if text.len() == 0 {
        seq![]
    } else if is_whitespace_char(text[0]) {
        squeezed(text.drop_first(), started, started)
    } else {
        (if pending {
            seq![' ']
        } else {
            seq![]
        }) + seq![text[0]] + squeezed(text.drop_first(), true, false)
    }
}

/// The words of a text joined by single spaces.
pub open spec fn words_joined(text: Seq<char>) -> Seq<char> {
    squeezed(text, false, false)
}

/// The command as shown in the suggestion row: its words joined by single spaces; when that
/// is longer than `max_chars`, its first `max_chars - 1` characters followed by `…`.
pub open spec fn command_suggestion(command: Seq<char>, max_chars: nat) -> Seq<char> {
    let joined = words_joined(command);
    if joined.len() <= max_chars {
        joined
    } else {
        joined.take(if max_chars >= 1 { max_chars - 1 } else { 0 }) + seq!['\u{2026}']
    }
}

/// Normalises the whitespace of a recent command and fits it into `max_chars` characters.
pub fn compact_command_suggestion(command: &str, max_chars: usize) -> (suggestion: String)
    ensures
        suggestion@ == command_suggestion(command@, max_chars as nat),
{
    let chars = chars_of(command);
    let mut joined: Vec<char> = Vec::new();
    let mut started = false;
    let mut pending = false;
    let mut index: usize = 0;
    proof {
        assert(chars@.skip(0) =~= chars@);
    }
    while index < chars.len()
        invariant
            index <= chars@.len(),
            chars@ == command@,
            joined@ + squeezed(chars@.skip(index as int), started, pending) == words_joined(command@),
        decreases chars@.len() - index,
    {
        let c = chars[index];
        let ghost rest = chars@.skip(index as int);
        proof {
            assert(rest[0] == c);
            assert(rest.drop_first() =~= chars@.skip(index + 1));
        }
        if char_is_whitespace(c) {
            pending = started;
        } else {
            let ghost before = joined@;
            if pending {
                joined.push(' ');
            }
            joined.push(c);
            proof {
                assert(joined@ =~= before + (if pending {
                    seq![' ']
                } else {
                    seq![]
                }) + seq![c]);
            }
            started = true;
            pending = false;
        }
        index += 1;
    }
    proof {
        assert(joined@ =~= words_joined(command@));
    }
    if joined.len() <= max_chars {
        return string_from_chars(&joined);
    }
    let keep = if max_chars >= 1 {
        max_chars - 1
    } else {
        0
    };
    let mut out: Vec<char> = Vec::new();
    let mut k: usize = 0;
    while k < keep
        invariant
            keep < joined@.len(),
            k <= keep,
            out@ == joined@.take(k as int),
        decreases keep - k,
    {
        out.push(joined[k]);
        proof {
            assert(joined@.take(k + 1) =~= joined@.take(k as int).push(joined@[k as int]));
        }
        k += 1;
    }
    out.push('\u{2026}');
    string_from_chars(&out)
}

/// A path as the sidebar shows it: whole when it has at most 34 characters, else `…` followed
/// by its last 29 characters.
pub open spec fn compacted_path(path: Seq<char>) -> Seq<char> {
    if path.len() <= 34 {
        path
    } else {
        seq!['\u{2026}'] + path.skip(path.len() - 29)
    }
}

/// Shortens a displayed path to fit the sidebar.
pub fn compact_path(path: &str) -> (compact: String)
    ensures
        compact@ == compacted_path(path@),
{
    let chars = chars_of(path);
    if chars.len() <= 34 {
        return string_from_chars(&chars);
    }
    let mut out: Vec<char> = Vec::new();
    out.push('\u{2026}');
    let start = chars.len() - 29;
    let mut index: usize = start;
    while index < chars.len()
        invariant
            start <= index <= chars@.len(),
            start == chars@.len() - 29,
            out@ == seq!['\u{2026}'] + chars@.subrange(start as int, index as int),
        decreases chars@.len() - index,
    {
        out.push(chars[index]);
        proof {
            assert(chars@.subrange(start as int, index + 1) =~= chars@.subrange(start as int, index as int).push(
                chars@[index as int],
            ));
        }
        index += 1;
    }
    proof {
        assert(chars@.subrange(start as int, chars@.len() as int) =~= chars@.skip(start as int));
    }
    string_from_chars(&out)
}

/// A path wrapped in double quotes, as pasted into a terminal.
pub fn quoted_terminal_path(path: &str) -> (quoted: String)
    ensures
        quoted@ == seq!['"'] + path@ + seq!['"'],
{
    let mut out: Vec<char> = Vec::new();
    out.push('"');
    push_all(&mut out, &chars_of(path));
    out.push('"');
    string_from_chars(&out)
}

/// The word for `count` items: `terminal` becomes `terminals` unless the count is one; other
/// words are kept.
pub fn pluralize(word: &'static str, count: usize) -> (plural: &'static str)
    ensures
        plural@ == if count != 1 && word@ == "terminal"@ {
            "terminals"@
        } else {
            word@
        },
{
    if count == 1 {
        word
    } else if text_equals(word, "terminal") {
        "terminals"
    } else {
        word
    }
}

/// Whether a text names the OpenCode agent.
pub open spec fn names_opencode(text: Seq<char>) -> bool {
    has_substring(text, "opencode"@) || has_substring(text, "open-code"@) || has_substring(
        text,
        "open code"@,
    )
}

/// Whether a text names the Codex agent.
pub open spec fn names_codex(text: Seq<char>) -> bool {
    has_substring(text, "openai codex"@) || has_substring(text, " codex"@) || has_prefix(
        text,
        "codex"@,
    )
}

/// Whether a process label names the OpenCode agent.
pub fn agent_text_matches_opencode(text: &str) -> (matched: bool)
    ensures
        matched == names_opencode(text@),
{
    let chars = chars_of(text);
    contains_chars(&chars, &chars_of("opencode")) || contains_chars(&chars, &chars_of("open-code"))
        || contains_chars(&chars, &chars_of("open code"))
}

/// Whether a process label names the Codex agent.
pub fn agent_text_matches_codex(text: &str) -> (matched: bool)
    ensures
        matched == names_codex(text@),
{
    let chars = chars_of(text);
    contains_chars(&chars, &chars_of("openai codex")) || contains_chars(&chars, &chars_of(" codex"))
        || starts_with_chars(&chars, &chars_of("codex"))
}

/// A coding agent that a terminal runs.
#[derive(Clone, Copy, Debug, PartialEq, Eq, Structural)]
pub enum AgentKind {
    Codex,
    OpenCode,
}

/// The agent that a process label names, ignoring ASCII case; OpenCode is checked first.
pub open spec fn agent_of(label: Seq<char>) -> Option<AgentKind> {
    let lower = lowercase_ascii(label);
    if names_opencode(lower) {
        Some(AgentKind::OpenCode)
    } else if names_codex(lower) {
        Some(AgentKind::Codex)
    } else {
        None
    }
}

fn chars_name_opencode(text: &Vec<char>) -> (matched: bool)
    ensures
        matched == names_opencode(text@),
{
    contains_chars(text, &chars_of("opencode")) || contains_chars(text, &chars_of("open-code"))
        || contains_chars(text, &chars_of("open code"))
}

fn chars_name_codex(text: &Vec<char>) -> (matched: bool)
    ensures
        matched == names_codex(text@),
{
    contains_chars(text, &chars_of("openai codex")) || contains_chars(text, &chars_of(" codex"))
        || starts_with_chars(text, &chars_of("codex"))
}

/// The agent that a terminal's process label names.
pub fn pane_agent_kind(process_label: &str) -> (kind: Option<AgentKind>)
    ensures
        kind == agent_of(process_label@),
{
    let lower = to_ascii_lowercase(&chars_of(process_label));
    if chars_name_opencode(&lower) {
        Some(AgentKind::OpenCode)
    } else if chars_name_codex(&lower) {
        Some(AgentKind::Codex)
    } else {
        None
    }
}

/// What the workspace summary reads of one terminal: its status and its process label.
#[derive(Clone, Debug, PartialEq, Eq)]
pub struct PaneActivity {
    pub status: SessionStatus,
    pub process_label: String,
}

/// The counts shown when hovering a workspace.
#[derive(Clone, Copy, Debug, PartialEq, Eq, Structural)]
pub struct WorkspaceHoverSummary {
    pub active_terminals: usize,
    pub codex_agents: usize,
    pub opencode_agents: usize,
}

/// Whether a terminal counts as active: starting or running.
pub open spec fn is_active(status: SessionStatus) -> bool {
    status is Starting || status is Running
}

/// How many of the terminals are active.
pub open spec fn active_count(panes: Seq<PaneActivity>) -> nat
    decreases panes.len(),
{
    if panes.len() == 0 {
        0
    } else {
        active_count(panes.drop_last()) + if is_active(panes.last().status) {
            1nat
        } else {
            0nat
        }
    }
}

/// How many of the active terminals run the given agent.
pub open spec fn agent_count(panes: Seq<PaneActivity>, kind: AgentKind) -> nat
    decreases panes.len(),
{
    if panes.len() == 0 {
        0
    } else {
        agent_count(panes.drop_last(), kind) + if is_active(panes.last().status) && agent_of(
            panes.last().process_label@,
        ) == Some(kind) {
            1nat
        } else {
            0nat
        }
    }
}

proof fn lemma_counts_bounded(panes: Seq<PaneActivity>)
    ensures
        agent_count(panes, AgentKind::Codex) <= active_count(panes),
        agent_count(panes, AgentKind::OpenCode) <= active_count(panes),
        active_count(panes) <= panes.len(),
    decreases panes.len(),
{
    if panes.len() > 0 {
        lemma_counts_bounded(panes.drop_last());
    }
}

/// Counts the active terminals of a workspace and, among them, those running Codex and those
/// running OpenCode.
pub fn workspace_hover_summary(panes: &Vec<PaneActivity>) -> (summary: WorkspaceHoverSummary)
    ensures
        summary.active_terminals == active_count(panes@),
        summary.codex_agents == agent_count(panes@, AgentKind::Codex),
        summary.opencode_agents == agent_count(panes@, AgentKind::OpenCode),
{
    let mut summary = WorkspaceHoverSummary { active_terminals: 0, codex_agents: 0, opencode_agents: 0 };
    let mut index: usize = 0;
    while index < panes.len()
        invariant
            index <= panes@.len(),
            summary.active_terminals == active_count(panes@.take(index as int)),
            summary.codex_agents == agent_count(panes@.take(index as int), AgentKind::Codex),
            summary.opencode_agents == agent_count(panes@.take(index as int), AgentKind::OpenCode),
        decreases panes@.len() - index,
    {
        let pane = &panes[index];
        proof {
            assert(panes@.take(index + 1).drop_last() =~= panes@.take(index as int));
            assert(panes@.take(index + 1).last() == panes@[index as int]);
            lemma_counts_bounded(panes@.take(index as int));
        }
        let active = match pane.status {
            SessionStatus::Starting | SessionStatus::Running => true,
            _ => false,
        };
        if active {
            summary.active_terminals = summary.active_terminals + 1;
            match pane_agent_kind(pane.process_label.as_str()) {
                Some(AgentKind::Codex) => {
                    summary.codex_agents = summary.codex_agents + 1;
                },
                Some(AgentKind::OpenCode) => {
                    summary.opencode_agents = summary.opencode_agents + 1;
                },
                None => {},
            }
        }
        index += 1;
    }
    proof {
        assert(panes@.take(index as int) =~= panes@);
    }
    summary
}

/// The sixteen ANSI colours of the terminal theme, as red, green and blue.
pub open spec fn ansi_rgb(index: u8) -> (u8, u8, u8) {
    if index == 0 {
        (28, 30, 28)
    } else if index == 1 {
        (205, 73, 69)
    } else if index == 2 {
        (82, 171, 103)
    } else if index == 3 {
        (218, 177, 83)
    } else if index == 4 {
        (79, 135, 218)
    } else if index == 5 {
        (180, 99, 193)
    } else if index == 6 {
        (70, 174, 182)
    } else if index == 7 {
        (211, 214, 207)
    } else if index == 8 {
        (101, 105, 99)
    } else if index == 9 {
        (239, 102, 98)
    } else if index == 10 {
        (112, 207, 132)
    } else if index == 11 {
        (245, 207, 112)
    } else if index == 12 {
        (112, 163, 236)
    } else if index == 13 {
        (211, 137, 224)
    } else if index == 14 {
        (99, 207, 215)
    } else {
        (249, 250, 247)
    }
}

/// One channel of the 6x6x6 colour cube: 0 stays 0, step `p` is `55 + 40 p`.
pub open spec fn cube_level(part: int) -> int {
    if part == 0 {
        0
    } else {
        55 + part * 40
    }
}

/// The colour of a 256-colour palette index: the theme's ANSI colours, then the colour cube,
/// then a grey ramp.
pub open spec fn palette_rgb(index: u8) -> (u8, u8, u8) {
    if index <= 15 {
        ansi_rgb(index)
    } else if index <= 231 {
        let value = index - 16;
        (
            cube_level(value / 36) as u8,
            cube_level((value % 36) / 6) as u8,
            cube_level(value % 6) as u8,
        )
    } else {
        let gray = (8 + (index - 232) * 10) as u8;
        (gray, gray, gray)
    }
}

fn cube_component(part: u8) -> (level: u8)
    requires
        part <= 5,
    ensures
        level == cube_level(part as int),
{
    if part == 0 {
        0
    } else {
        55 + part * 40
    }
}

/// The red, green and blue of a 256-colour palette index.
pub fn indexed_rgb(index: u8) -> (rgb: (u8, u8, u8))
    ensures
        rgb == palette_rgb(index),
{
    if index <= 15 {
        match index {
            0 => (28, 30, 28),
            1 => (205, 73, 69),
            2 => (82, 171, 103),
            3 => (218, 177, 83),
            4 => (79, 135, 218),
            5 => (180, 99, 193),
            6 => (70, 174, 182),
            7 => (211, 214, 207),
            8 => (101, 105, 99),
            9 => (239, 102, 98),
            10 => (112, 207, 132),
            11 => (245, 207, 112),
            12 => (112, 163, 236),
            13 => (211, 137, 224),
            14 => (99, 207, 215),
            _ => (249, 250, 247),
        }
    } else if index <= 231 {
        let value = index - 16;
        (cube_component(value / 36), cube_component((value % 36) / 6), cube_component(value % 6))
    } else {
        let gray = 8 + (index - 232) * 10;
        (gray, gray, gray)
    }
}

/// A path as the pane header shows it: a leading home directory (`profile`, compared ignoring
/// ASCII case) becomes `~`; the text is kept whole when it has at most `max_chars` characters,
/// cut to its first `max_chars` when `max_chars` is at most 4, else shown as `…\` and its last
/// `max_chars - 2` characters.
pub open spec fn header_path(path: Seq<char>, profile: Option<Seq<char>>, max_chars: nat) -> Seq<
    char,
> {
    let text = match profile {
        Some(p) => if p.len() <= path.len() && lowercase_ascii(path.take(p.len() as int))
            == lowercase_ascii(p) {
            seq!['~'] + path.skip(p.len() as int)
        } else {
            path
        },
        None => path,
    };
    if text.len() <= max_chars {
        text
    } else if max_chars <= 4 {
        text.take(max_chars as int)
    } else {
        seq!['\u{2026}', '\\'] + text.skip(text.len() - (max_chars - 2))
    }
}

/// Shortens a path for the pane header; `profile` is the user's home directory, where known.
pub fn compact_header_path(path: &str, profile: Option<&str>, max_chars: usize) -> (compact: String)
    ensures
        compact@ == header_path(
            path@,
            match profile {
                Some(p) => Some(p@),
                None => None,
            },
            max_chars as nat,
        ),
{
    let chars = chars_of(path);
    let text: Vec<char> = match profile {
        Some(p) => {
            let home = chars_of(p);
            if home.len() <= chars.len() {
                let head = copy_range(&chars, 0, home.len());
                let head_lower = to_ascii_lowercase(&head);
                let home_lower = to_ascii_lowercase(&home);
                let same = head_lower.len() == home_lower.len() && starts_with_chars(
                    &head_lower,
                    &home_lower,
                );
                proof {
                    assert(head@ =~= chars@.take(home@.len() as int));
                    assert(head_lower@.len() == home_lower@.len() ==> head_lower@.subrange(
                        0,
                        home_lower@.len() as int,
                    ) =~= head_lower@);
                    if head_lower@ == home_lower@ {
                        assert(head_lower@.subrange(0, home_lower@.len() as int) =~= head_lower@);
                    }
                }
                if same {
                    let mut out: Vec<char> = Vec::new();
                    out.push('~');
                    push_all(&mut out, &skip_chars(&chars, home.len()));
                    out
                } else {
                    chars
                }
            } else {
                chars
            }
        },
        None => chars,
    };
    if text.len() <= max_chars {
        return string_from_chars(&text);
    }
    if max_chars <= 4 {
        return string_from_chars(&copy_range(&text, 0, max_chars));
    }
    let mut out: Vec<char> = Vec::new();
    out.push('\u{2026}');
    out.push('\\');
    let tail = skip_chars(&text, text.len() - (max_chars - 2));
    push_all(&mut out, &tail);
    proof {
        assert(text@.subrange(0, max_chars as int) =~= text@.take(max_chars as int));
    }
    string_from_chars(&out)
}

/// What a split request from the view becomes.
#[derive(Clone, Debug, PartialEq)]
pub enum SplitIntent {
    /// The workspace already holds the most terminals: show the limit notice instead.
    ShowLimit,
    /// Send this request to the daemon.
    Request(ClientRequest),
}

/// What asking to split the active pane of a workspace does: at the terminal cap it shows the
/// limit notice; with an active pane it splits that pane; in an empty workspace it creates one.
pub fn split_intent(
    workspace_id: WorkspaceId,
    pane_count: usize,
    active_pane_id: Option<PaneId>,
    direction: SplitDirection,
) -> (intent: SplitIntent)
    ensures
        pane_count >= MAX_TERMINALS_PER_WORKSPACE ==> intent == SplitIntent::ShowLimit,
        pane_count < MAX_TERMINALS_PER_WORKSPACE ==> intent == match active_pane_id {
            Some(target) => SplitIntent::Request(
                ClientRequest::SplitPane { workspace_id, target, direction },
            ),
            None => SplitIntent::Request(ClientRequest::CreatePane { workspace_id }),
        },
{
    if terminal_limit_reached(pane_count) {
        return SplitIntent::ShowLimit;
    }
    match active_pane_id {
        Some(target) => SplitIntent::Request(
            ClientRequest::SplitPane { workspace_id, target, direction },
        ),
        None => SplitIntent::Request(ClientRequest::CreatePane { workspace_id }),
    }
}

/// The workspace shown after a snapshot arrives: the position of the snapshot's active
/// workspace, or the first, kept within the list.
pub open spec fn shown_workspace(ids: Seq<WorkspaceId>, active: Option<WorkspaceId>) -> int {
    let found = match active {
        Some(a) => if first_index(ids, a) < ids.len() {
            first_index(ids, a) as int
        } else {
            0
        },
        None => 0,
    };
    let last = if ids.len() >= 1 {
        ids.len() - 1
    } else {
        0
    };
    if found <= last {
        found
    } else {
        last
    }
}

/// Picks the workspace to show after a snapshot arrives.
pub fn active_workspace_index(ids: &Vec<WorkspaceId>, active: Option<WorkspaceId>) -> (index: usize)
    ensures
        index == shown_workspace(ids@, active),
{
    let found: usize = match active {
        Some(a) => {
            proof {
                lemma_first_index_bounds(ids@, a);
            }
            let mut i: usize = 0;
            while i < ids.len() && ids[i] != a
                invariant
                    active == Some(a),
                    i <= ids@.len(),
                    forall|j: int| 0 <= j < i ==> ids@[j] != a,
                    first_index(ids@, a) <= ids@.len(),
                    first_index(ids@, a) < ids@.len() ==> ids@[first_index(ids@, a) as int] == a,
                    forall|j: int| 0 <= j < first_index(ids@, a) ==> ids@[j] != a,
                decreases ids@.len() - i,
            {
                i += 1;
            }
            proof {
                let f = first_index(ids@, a);
                if i < ids@.len() {
                    if f < i {
                        assert(ids@[f as int] == a);
                    }
                    if f > i {
                        assert(ids@[i as int] != a);
                    }
                }
            }
            if i < ids.len() {
                i
            } else {
                0
            }
        },
        None => 0,
    };
    let last = if ids.len() >= 1 {
        ids.len() - 1
    } else {
        0
    };
    if found <= last {
        found
    } else {
        last
    }
}

/// A cell of the terminal grid.
#[derive(Clone, Copy, Debug, PartialEq, Eq, Structural)]
pub struct CellPosition {
    pub row: u16,
    pub column: u16,
}

/// A selection between two cells, in the order the pointer made it.
#[derive(Clone, Copy, Debug, PartialEq, Eq, Structural)]
pub struct TerminalSelection {
    pub start: CellPosition,
    pub end: CellPosition,
}

/// The reading-order index of a cell in a grid `columns` wide.
pub open spec fn cell_index(position: CellPosition, columns: u16) -> int {
    position.row * columns + position.column
}

/// The selection's two ends in reading order.
pub fn ordered_selection(selection: TerminalSelection, columns: u16) -> (ends: (CellPosition, CellPosition))
    ensures
        cell_index(selection.start, columns) <= cell_index(selection.end, columns) ==> ends == (
        selection.start, selection.end),
        cell_index(selection.start, columns) > cell_index(selection.end, columns) ==> ends == (
        selection.end, selection.start),
{
    let width = columns as u64;
    let start_row = selection.start.row as u64;
    let end_row = selection.end.row as u64;
    proof {
        vstd::arithmetic::mul::lemma_mul_upper_bound(start_row as int, 65535, width as int, 65535);
        vstd::arithmetic::mul::lemma_mul_upper_bound(end_row as int, 65535, width as int, 65535);
    }
    let start = start_row * width + selection.start.column as u64;
    let end = end_row * width + selection.end.column as u64;
    if start <= end {
        (selection.start, selection.end)
    } else {
        (selection.end, selection.start)
    }
}

/// Whether a workspace with `terminal_count` terminals has reached the cap.
pub fn terminal_limit_reached(terminal_count: usize) -> (reached: bool)
    ensures
        reached == (terminal_count >= MAX_TERMINALS_PER_WORKSPACE),
{
    terminal_count >= MAX_TERMINALS_PER_WORKSPACE
}

/// One round of an integer hash finaliser.
pub open spec fn mixed(value: u32) -> u32 {
    let a = value ^ (value >> 16u32);
    let b = vstd::wrapping::u32_specs::wrapping_mul(a, 0x7feb_352d);
    let c = b ^ (b >> 15u32);
    let d = vstd::wrapping::u32_specs::wrapping_mul(c, 0x846c_a68b);
    d ^ (d >> 16u32)
}

/// Scrambles the bits of `value`.
pub fn mix_u32(value: u32) -> (mixed_value: u32)
    ensures
        mixed_value == mixed(value),
{
    let a: u32 = value ^ (value >> 16u32);
    let b: u32 = a.wrapping_mul(0x7feb_352d);
    let c: u32 = b ^ (b >> 15u32);
    let d: u32 = c.wrapping_mul(0x846c_a68b);
    d ^ (d >> 16u32)
}

/// Nanoseconds a deferred update waits after the last user activity: five minutes.
pub const UPDATE_IDLE_NANOS: u128 = 300_000_000_000;

/// How long a deferred update must still wait, given the times (in nanoseconds on one clock) of
/// the last user activity and of now: the rest of five idle minutes, or `None` once they passed.
pub fn deferred_update_delay(last_activity_nanos: u128, now_nanos: u128) -> (delay: Option<u128>)
    ensures
        ({
            let idle = if now_nanos >= last_activity_nanos {
                now_nanos - last_activity_nanos
            } else {
                0
            };
            if idle < UPDATE_IDLE_NANOS {
                delay == Some((UPDATE_IDLE_NANOS - idle) as u128)
            } else {
                delay is None
            }
        }),
{
    let idle = now_nanos.saturating_sub(last_activity_nanos);
    if idle < UPDATE_IDLE_NANOS {
        Some(UPDATE_IDLE_NANOS - idle)
    } else {
        None
    }
}

/// Each active terminal runs at most one agent: the Codex and OpenCode counts together never
/// exceed the active terminals.
pub proof fn agent_counts_within_active(panes: Seq<PaneActivity>)
    ensures
        agent_count(panes, AgentKind::Codex) + agent_count(panes, AgentKind::OpenCode)
            <= active_count(panes),
    decreases panes.len(),
{
    if panes.len() > 0 {
        agent_counts_within_active(panes.drop_last());
    }
}

} // verus!
