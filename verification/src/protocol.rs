use vstd::prelude::*;

use crate::ids::{PaneId, WorkspaceId};
use crate::layout::{LayoutNode, SplitDirection};
use crate::text::{chars_of, decimal, push_all, push_decimal, string_from_chars};
use crate::workspace::{SessionStatus, StatusView};

verus! {

/// Version of the client/daemon message protocol.
pub const PROTOCOL_VERSION: u32 = 1;

/// Largest JSON body a frame may carry, in bytes.
pub const MAX_FRAME_SIZE: usize = 16 * 1024 * 1024;

/// A message tagged with the protocol version of its sender.
#[derive(Clone, Debug, PartialEq, Eq)]
pub struct Versioned<T> {
    pub protocol_version: u32,
    pub message: T,
}

impl<T> Versioned<T> {
    /// Tags `message` with this build's protocol version.
    pub fn new(message: T) -> (versioned: Self)
        ensures
            versioned.protocol_version == PROTOCOL_VERSION,
            versioned.message == message,
    {
        Versioned { protocol_version: PROTOCOL_VERSION, message }
    }
}

/// A request a client sends to the daemon.
#[derive(Clone, Debug, PartialEq)]
pub enum ClientRequest {
    Attach,
    GetSnapshot,
    CreateWorkspace { name: String, root: String },
    RenameWorkspace { workspace_id: WorkspaceId, name: String },
    CloseWorkspace { workspace_id: WorkspaceId },
    CreatePane { workspace_id: WorkspaceId },
    SplitPane { workspace_id: WorkspaceId, target: PaneId, direction: SplitDirection },
    ClosePane { pane_id: PaneId },
    FocusWorkspace { workspace_id: WorkspaceId },
    FocusPane { pane_id: PaneId },
    UpdateLayout { workspace_id: WorkspaceId, layout: LayoutNode },
    Input { pane_id: PaneId, data: Vec<u8> },
    Resize { pane_id: PaneId, cols: u16, rows: u16 },
    ReportCwd { pane_id: PaneId, cwd: String },
    Shutdown,
}

/// An event the daemon sends to its client.
#[derive(Clone, Debug, PartialEq)]
pub enum ServerEvent {
    Attached { snapshot: AppSnapshot },
    TerminalOutput { pane_id: PaneId, data: Vec<u8> },
    WorkspaceUpdated { snapshot: AppSnapshot },
    PaneStatus { pane_id: PaneId, status: SessionStatus },
    Error { message: String },
}

/// The authoritative application state: workspaces, their panes, and the focused workspace.
#[derive(Clone, Debug, PartialEq)]
pub struct AppSnapshot {
    pub active_workspace_id: Option<WorkspaceId>,
    pub workspaces: Vec<WorkspaceSnapshot>,
    pub panes: Vec<PaneSnapshot>,
}

/// One workspace of the application state.
#[derive(Clone, Debug, PartialEq)]
pub struct WorkspaceSnapshot {
    pub id: WorkspaceId,
    pub name: String,
    pub root: String,
    pub layout: LayoutNode,
    pub active_pane_id: Option<PaneId>,
}

/// One pane of the application state.
#[derive(Clone, Debug, PartialEq, Eq)]
pub struct PaneSnapshot {
    pub id: PaneId,
    pub workspace_id: WorkspaceId,
    pub status: SessionStatus,
    pub cwd: String,
    pub process_label: String,
    pub cols: u16,
    pub rows: u16,
}

/// A pane with its texts taken as character sequences.
#[verifier::ext_equal]
pub struct PaneView {
    pub id: PaneId,
    pub workspace_id: WorkspaceId,
    pub status: StatusView,
    pub cwd: Seq<char>,
    pub process_label: Seq<char>,
    pub cols: u16,
    pub rows: u16,
}

/// A workspace with its texts taken as character sequences.
#[verifier::ext_equal]
pub struct WorkspaceView {
    pub id: WorkspaceId,
    pub name: Seq<char>,
    pub root: Seq<char>,
    pub layout: LayoutNode,
    pub active_pane_id: Option<PaneId>,
}

/// The application state as mathematical sequences.
#[verifier::ext_equal]
pub struct AppView {
    pub active_workspace_id: Option<WorkspaceId>,
    pub workspaces: Seq<WorkspaceView>,
    pub panes: Seq<PaneView>,
}

impl View for PaneSnapshot {
    type V = PaneView;

    open spec fn view(&self) -> PaneView {
        PaneView {
            id: self.id,
            workspace_id: self.workspace_id,
            status: self.status@,
            cwd: self.cwd@,
            process_label: self.process_label@,
            cols: self.cols,
            rows: self.rows,
        }
    }
}

impl View for WorkspaceSnapshot {
    type V = WorkspaceView;

    open spec fn view(&self) -> WorkspaceView {
        WorkspaceView {
            id: self.id,
            name: self.name@,
            root: self.root@,
            layout: self.layout,
            active_pane_id: self.active_pane_id,
        }
    }
}

/// The views of a sequence of panes.
pub open spec fn pane_views(panes: Seq<PaneSnapshot>) -> Seq<PaneView> {
    panes.map_values(|p: PaneSnapshot| p@)
}

/// The views of a sequence of workspaces.
pub open spec fn workspace_views(workspaces: Seq<WorkspaceSnapshot>) -> Seq<WorkspaceView> {
    workspaces.map_values(|w: WorkspaceSnapshot| w@)
}

impl View for AppSnapshot {
    type V = AppView;

    open spec fn view(&self) -> AppView {
        AppView {
            active_workspace_id: self.active_workspace_id,
            workspaces: workspace_views(self.workspaces@),
            panes: pane_views(self.panes@),
        }
    }
}

impl AppSnapshot {
    /// The empty application state.
    pub fn empty() -> (snapshot: Self)
        ensures
            snapshot@.active_workspace_id is None,
            snapshot@.workspaces.len() == 0,
            snapshot@.panes.len() == 0,
    {
        AppSnapshot { active_workspace_id: None, workspaces: Vec::new(), panes: Vec::new() }
    }
}

impl Default for AppSnapshot {
    fn default() -> (snapshot: Self)
        ensures
            snapshot@.active_workspace_id is None,
            snapshot@.workspaces.len() == 0,
            snapshot@.panes.len() == 0,
    {
        AppSnapshot::empty()
    }
}

/// Why a frame was refused.
#[derive(Clone, Copy, Debug, PartialEq, Eq, Structural)]
pub enum FrameError {
    /// The body length exceeds `MAX_FRAME_SIZE`.
    TooLarge(usize),
}

/// The four little-endian bytes of `value`.
pub open spec fn le_bytes(value: u32) -> Seq<u8> {
    seq![
        (value & 0xff) as u8,
        ((value >> 8) & 0xff) as u8,
        ((value >> 16) & 0xff) as u8,
        ((value >> 24) & 0xff) as u8,
    ]
}

/// The number whose little-endian bytes are `bytes`.
pub open spec fn le_value(bytes: Seq<u8>) -> nat {
    bytes[0] as nat + 256 * bytes[1] as nat + 65536 * bytes[2] as nat + 16777216 * bytes[3] as nat
}

/// Frames a JSON body: its length as four little-endian bytes, then the body.
///
/// Refuses with `TooLarge(len)` a body longer than `MAX_FRAME_SIZE`.
pub fn encode_frame(json: &[u8]) -> (frame: Result<Vec<u8>, FrameError>)
    ensures
        json@.len() > MAX_FRAME_SIZE ==> frame == Err::<Vec<u8>, FrameError>(
            FrameError::TooLarge(json@.len() as usize),
        ),
        json@.len() <= MAX_FRAME_SIZE ==> (frame matches Ok(bytes) && bytes@ == le_bytes(
            json@.len() as u32,
        ) + json@),
{
    let length = json.len();
    if length > MAX_FRAME_SIZE {
        return Err(FrameError::TooLarge(length));
    }
    let value = length as u32;
    let mut bytes: Vec<u8> = Vec::new();
    bytes.push((value & 0xff) as u8);
    bytes.push(((value >> 8) & 0xff) as u8);
    bytes.push(((value >> 16) & 0xff) as u8);
    bytes.push(((value >> 24) & 0xff) as u8);
    let ghost header = bytes@;
    let mut index: usize = 0;
    while index < json.len()
        invariant
            index <= json@.len(),
            header == le_bytes(value),
            bytes@ == header + json@.take(index as int),
        decreases json@.len() - index,
    {
        bytes.push(json[index]);
        proof {
            assert(json@.take(index + 1) =~= json@.take(index as int).push(json@[index as int]));
        }
        index += 1;
    }
    proof {
        assert(json@.take(json@.len() as int) =~= json@);
    }
    Ok(bytes)
}

/// Reads a frame header: the body length it declares.
///
/// Refuses with `TooLarge(len)` a declared length beyond `MAX_FRAME_SIZE`, before any body is
/// read.
pub fn decode_frame_length(header: [u8; 4]) -> (length: Result<usize, FrameError>)
    ensures
        le_value(header@) > MAX_FRAME_SIZE ==> length == Err::<usize, FrameError>(
            FrameError::TooLarge(le_value(header@) as usize),
        ),
        le_value(header@) <= MAX_FRAME_SIZE ==> length == Ok::<usize, FrameError>(
            le_value(header@) as usize,
        ),
{
    let value: u64 = header[0] as u64 + 256 * (header[1] as u64) + 65536 * (header[2] as u64)
        + 16777216 * (header[3] as u64);
    if value > MAX_FRAME_SIZE as u64 {
        Err(FrameError::TooLarge(value as usize))
    } else {
        Ok(value as usize)
    }
}

/// Whether a user-name character is kept as is in the pipe name.
pub open spec fn is_pipe_safe(c: char) -> bool {
    ('a' <= c <= 'z') || ('A' <= c <= 'Z') || ('0' <= c <= '9') || c == '-' || c == '_'
}

/// The user-name character as it appears in the pipe name.
pub open spec fn pipe_char(c: char) -> char {
    if is_pipe_safe(c) {
        c
    } else {
        '_'
    }
}

/// The prefix of every daemon pipe name: `\\.\pipe\ade-`.
pub open spec fn pipe_prefix() -> Seq<char> {
    seq!['\\', '\\', '.', '\\', 'p', 'i', 'p', 'e', '\\', 'a', 'd', 'e', '-']
}

/// The per-user pipe name: the prefix, then the user name with every character that is not an
/// ASCII letter, digit, `-` or `_` replaced by `_`.
pub fn pipe_name_for_user(user: &str) -> (name: String)
    ensures
        name@ == pipe_prefix() + user@.map_values(|c: char| pipe_char(c)),
{
    let mut chars: Vec<char> = Vec::new();
    chars.push('\\');
    chars.push('\\');
    chars.push('.');
    chars.push('\\');
    chars.push('p');
    chars.push('i');
    chars.push('p');
    chars.push('e');
    chars.push('\\');
    chars.push('a');
    chars.push('d');
    chars.push('e');
    chars.push('-');
    proof {
        assert(chars@ =~= pipe_prefix());
    }
    let user_chars = chars_of(user);
    let mut index: usize = 0;
    while index < user_chars.len()
        invariant
            index <= user_chars@.len(),
            user_chars@ == user@,
            chars@ == pipe_prefix() + user@.take(index as int).map_values(|c: char| pipe_char(c)),
        decreases user_chars@.len() - index,
    {
        let c = user_chars[index];
        let safe = ('a' <= c && c <= 'z') || ('A' <= c && c <= 'Z') || ('0' <= c && c <= '9') || c
            == '-' || c == '_';
        if safe {
            chars.push(c);
        } else {
            chars.push('_');
        }
        proof {
            assert(user@.take(index + 1).map_values(|c: char| pipe_char(c)) =~= user@.take(
                index as int,
            ).map_values(|c: char| pipe_char(c)).push(pipe_char(c)));
        }
        index += 1;
    }
    proof {
        assert(user@.take(user@.len() as int) =~= user@);
    }
    string_from_chars(&chars)
}

/// The message given when the daemon speaks another protocol version than the client.
pub open spec fn version_mismatch_message(version: u32) -> Seq<char> {
    "daemon protocol "@ + decimal(version as nat) + " does not match client "@ + decimal(
        PROTOCOL_VERSION as nat,
    )
}

/// Accepts the protocol version that the daemon reported only where it is this client's.
pub fn ensure_version(version: u32) -> (checked: Result<(), String>)
    ensures
        version == PROTOCOL_VERSION ==> checked == Ok::<(), String>(()),
        version != PROTOCOL_VERSION ==> (checked matches Err(message) && message@
            == version_mismatch_message(version)),
{
    if version == PROTOCOL_VERSION {
        return Ok(());
    }
    let mut message: Vec<char> = chars_of("daemon protocol ");
    push_decimal(&mut message, version as u64);
    push_all(&mut message, &chars_of(" does not match client "));
    push_decimal(&mut message, PROTOCOL_VERSION as u64);
    Err(string_from_chars(&message))
}

/// A frame header reads back as the length it was written with: for every body that
/// `encode_frame` accepts, `decode_frame_length` of its first four bytes is the body's length.
pub proof fn frame_length_reads_back(length: u32)
    ensures
        le_value(le_bytes(length)) == length,
{
    let bytes = le_bytes(length);
    assert(((length & 0xff) as u8) as u32 == (length & 0xff)) by (bit_vector);
    assert((((length >> 8) & 0xff) as u8) as u32 == ((length >> 8) & 0xff)) by (bit_vector);
    assert((((length >> 16) & 0xff) as u8) as u32 == ((length >> 16) & 0xff)) by (bit_vector);
    assert((((length >> 24) & 0xff) as u8) as u32 == ((length >> 24) & 0xff)) by (bit_vector);
    assert((length & 0xff) + 256 * ((length >> 8) & 0xff) + 65536 * ((length >> 16) & 0xff)
        + 16777216 * ((length >> 24) & 0xff) == length) by (bit_vector);
}

} // verus!
