use vstd::prelude::*;

use crate::ids::PaneId;
use crate::text::{chars_of, string_from_chars};

verus! {

/// A key that the terminal view turns into input bytes.
#[derive(Clone, Copy, Debug, PartialEq, Eq, Structural)]
pub enum TerminalKey {
    /// A letter key: 0 for A up to 25 for Z.
    Letter(u8),
    ArrowUp,
    ArrowDown,
    ArrowRight,
    ArrowLeft,
    Enter,
    Tab,
    Backspace,
    Escape,
    Home,
    End,
    Delete,
    Insert,
    PageUp,
    PageDown,
    /// A function key: 1 for F1 up to 12 for F12.
    Function(u8),
    /// Any other key.
    Other,
}

/// The modifier keys held with a key.
#[derive(Clone, Copy, Debug, PartialEq, Eq, Structural)]
pub struct KeyModifiers {
    pub ctrl: bool,
    pub shift: bool,
    pub alt: bool,
}

pub open spec fn is_arrow(key: TerminalKey) -> bool {
    key is ArrowUp || key is ArrowDown || key is ArrowRight || key is ArrowLeft
}

/// The final byte of an arrow key's sequence.
pub open spec fn arrow_suffix(key: TerminalKey) -> u8 {
    match key {
        TerminalKey::ArrowUp => 0x41u8,
        TerminalKey::ArrowDown => 0x42u8,
        TerminalKey::ArrowRight => 0x43u8,
        _ => 0x44u8,
    }
}

/// The xterm modifier parameter: 1, plus 1 for Shift, 2 for Alt and 4 for Ctrl.
pub open spec fn modifier_parameter(modifiers: KeyModifiers) -> int {
    1 + (if modifiers.shift {
        1int
    } else {
        0
    }) + (if modifiers.alt {
        2int
    } else {
        0
    }) + (if modifiers.ctrl {
        4int
    } else {
        0
    })
}

/// The bytes of a key without Ctrl-letter or modified-arrow handling; `application_cursor`
/// tells whether the terminal asked for application cursor keys.
pub open spec fn plain_key_bytes(key: TerminalKey, shift: bool, application_cursor: bool) -> Option<
    Seq<u8>,
> {
    match key {
        TerminalKey::Enter => Some(seq![0x0du8]),
        TerminalKey::Tab => if shift {
            Some(seq![0x1bu8, 0x5bu8, 0x5au8])
        } else {
            Some(seq![0x09u8])
        },
        TerminalKey::Backspace => Some(seq![0x7fu8]),
        TerminalKey::Escape => Some(seq![0x1bu8]),
        TerminalKey::ArrowUp | TerminalKey::ArrowDown | TerminalKey::ArrowRight
        | TerminalKey::ArrowLeft => if application_cursor {
            Some(seq![0x1bu8, 0x4fu8, arrow_suffix(key)])
        } else {
            Some(seq![0x1bu8, 0x5bu8, arrow_suffix(key)])
        },
        TerminalKey::Home => Some(seq![0x1bu8, 0x5bu8, 0x48u8]),
        TerminalKey::End => Some(seq![0x1bu8, 0x5bu8, 0x46u8]),
        TerminalKey::Delete => Some(seq![0x1bu8, 0x5bu8, 0x33u8, 0x7eu8]),
        TerminalKey::Insert => Some(seq![0x1bu8, 0x5bu8, 0x32u8, 0x7eu8]),
        TerminalKey::PageUp => Some(seq![0x1bu8, 0x5bu8, 0x35u8, 0x7eu8]),
        TerminalKey::PageDown => Some(seq![0x1bu8, 0x5bu8, 0x36u8, 0x7eu8]),
        TerminalKey::Function(n) => function_key_bytes(n),
        _ => None,
    }
}

/// The bytes of F1 to F12: `ESC O P` to `ESC O S`, then `ESC [ 15 ~` and on.
pub open spec fn function_key_bytes(n: u8) -> Option<Seq<u8>> {
    if 1 <= n <= 4 {
        Some(seq![0x1bu8, 0x4fu8, (0x4f + n) as u8])
    } else if 5 <= n <= 12 {
        let code: int = if n == 5 {
            15
        } else if n <= 10 {
            n + 11
        } else {
            n + 12
        };
        Some(seq![0x1bu8, 0x5bu8, (0x30 + code / 10) as u8, (0x30 + code % 10) as u8, 0x7eu8])
    } else {
        None
    }
}

/// The bytes a key press sends to the terminal: Ctrl with a letter (and without Shift) gives
/// its control character; an arrow with any of Shift, Alt and Ctrl gives `ESC [ 1 ; m X`; Ctrl
/// without Shift gives nothing for other keys; other keys give their usual sequences, and keys
/// without one give nothing.
pub open spec fn key_bytes(key: TerminalKey, modifiers: KeyModifiers, application_cursor: bool) -> Option<
    Seq<u8>,
> {
    if modifiers.ctrl && !modifiers.shift && !is_arrow(key) {
        match key {
            TerminalKey::Letter(index) => if index < 26 {
                Some(seq![(index + 1) as u8])
            } else {
                None
            },
            _ => None,
        }
    } else if is_arrow(key) && (modifiers.shift || modifiers.alt || modifiers.ctrl) {
        Some(
            seq![
                0x1bu8,
                0x5bu8,
                0x31u8,
                0x3bu8,
                (0x30 + modifier_parameter(modifiers)) as u8,
                arrow_suffix(key),
            ],
        )
    } else {
        plain_key_bytes(key, modifiers.shift, application_cursor)
    }
}

fn arrow_suffix_byte(key: TerminalKey) -> (suffix: u8)
    ensures
        suffix == arrow_suffix(key),
{
    match key {
        TerminalKey::ArrowUp => 0x41,
        TerminalKey::ArrowDown => 0x42,
        TerminalKey::ArrowRight => 0x43,
        _ => 0x44,
    }
}

fn function_key(n: u8) -> (bytes: Option<Vec<u8>>)
    ensures
        match bytes {
            Some(b) => function_key_bytes(n) == Some(b@),
            None => function_key_bytes(n) is None,
        },
{
    if 1 <= n && n <= 4 {
        let v: Vec<u8> = vec![0x1b, 0x4f, 0x4f + n];
        proof {
            assert(v@ =~= seq![0x1bu8, 0x4fu8, (0x4f + n) as u8]);
        }
        Some(v)
    } else if 5 <= n && n <= 12 {
        let code: u8 = if n == 5 {
            15
        } else if n <= 10 {
            n + 11
        } else {
            n + 12
        };
        let v: Vec<u8> = vec![0x1b, 0x5b, 0x30 + code / 10, 0x30 + code % 10, 0x7e];
        proof {
            assert(v@ =~= seq![
                0x1bu8,
                0x5bu8,
                (0x30 + code / 10) as u8,
                (0x30 + code % 10) as u8,
                0x7eu8,
            ]);
        }
        Some(v)
    } else {
        None
    }
}

/// Encodes a key press as terminal input.
pub fn encode_key(key: TerminalKey, modifiers: KeyModifiers, application_cursor: bool) -> (bytes:
    Option<Vec<u8>>)
    ensures
        match bytes {
            Some(b) => key_bytes(key, modifiers, application_cursor) == Some(b@),
            None => key_bytes(key, modifiers, application_cursor) is None,
        },
{
    let arrow = match key {
        TerminalKey::ArrowUp | TerminalKey::ArrowDown | TerminalKey::ArrowRight
        | TerminalKey::ArrowLeft => true,
        _ => false,
    };
    if modifiers.ctrl && !modifiers.shift && !arrow {
        return match key {
            TerminalKey::Letter(index) => if index < 26 {
                let v: Vec<u8> = vec![index + 1];
                proof {
                    assert(v@ =~= seq![(index + 1) as u8]);
                }
                Some(v)
            } else {
                None
            },
            _ => None,
        };
    }
    if arrow && (modifiers.shift || modifiers.alt || modifiers.ctrl) {
        let parameter: u8 = 1 + (if modifiers.shift {
            1u8
        } else {
            0
        }) + (if modifiers.alt {
            2u8
        } else {
            0
        }) + (if modifiers.ctrl {
            4u8
        } else {
            0
        });
        let v: Vec<u8> = vec![0x1b, 0x5b, 0x31, 0x3b, 0x30 + parameter, arrow_suffix_byte(key)];
        proof {
            assert(v@ =~= seq![
                0x1bu8,
                0x5bu8,
                0x31u8,
                0x3bu8,
                (0x30 + modifier_parameter(modifiers)) as u8,
                arrow_suffix(key),
            ]);
        }
        return Some(v);
    }
    let v: Vec<u8> = match key {
        TerminalKey::Enter => vec![0x0d],
        TerminalKey::Tab => if modifiers.shift {
            vec![0x1b, 0x5b, 0x5a]
        } else {
            vec![0x09]
        },
        TerminalKey::Backspace => vec![0x7f],
        TerminalKey::Escape => vec![0x1b],
        TerminalKey::ArrowUp | TerminalKey::ArrowDown | TerminalKey::ArrowRight
        | TerminalKey::ArrowLeft => if application_cursor {
            vec![0x1b, 0x4f, arrow_suffix_byte(key)]
        } else {
            vec![0x1b, 0x5b, arrow_suffix_byte(key)]
        },
        TerminalKey::Home => vec![0x1b, 0x5b, 0x48],
        TerminalKey::End => vec![0x1b, 0x5b, 0x46],
        TerminalKey::Delete => vec![0x1b, 0x5b, 0x33, 0x7e],
        TerminalKey::Insert => vec![0x1b, 0x5b, 0x32, 0x7e],
        TerminalKey::PageUp => vec![0x1b, 0x5b, 0x35, 0x7e],
        TerminalKey::PageDown => vec![0x1b, 0x5b, 0x36, 0x7e],
        TerminalKey::Function(n) => {
            return function_key(n);
        },
        _ => {
            return None;
        },
    };
    proof {
        let expected = plain_key_bytes(key, modifiers.shift, application_cursor);
        assert(expected is Some);
        assert(v@ =~= expected->0);
    }
    Some(v)
}

/// Pasted text as the terminal receives it: each `\r\n` becomes `\n` and NUL characters are
/// dropped.
pub open spec fn normalized_paste(text: Seq<char>) -> Seq<char>
    decreases text.len(),
{
    if text.len() == 0 {
        seq![]
    } else if text.len() >= 2 && text[0] == '\r' && text[1] == '\n' {
        seq!['\n'] + normalized_paste(text.skip(2))
    } else if text[0] == '\0' {
        normalized_paste(text.skip(1))
    } else {
        seq![text[0]] + normalized_paste(text.skip(1))
    }
}

/// The text sent for a paste: normalised, and wrapped in `ESC [ 200 ~` and `ESC [ 201 ~` when
/// the terminal asked for bracketed paste.
pub open spec fn paste_payload(text: Seq<char>, bracketed: bool) -> Seq<char> {
    if bracketed {
        seq!['\x1b', '[', '2', '0', '0', '~'] + normalized_paste(text) + seq![
            '\x1b',
            '[',
            '2',
            '0',
            '1',
            '~',
        ]
    } else {
        normalized_paste(text)
    }
}

/// Prepares pasted text for the terminal.
pub fn paste_text(text: &str, bracketed: bool) -> (payload: String)
    ensures
        payload@ == paste_payload(text@, bracketed),
{
    let chars = chars_of(text);
    let mut out: Vec<char> = Vec::new();
    if bracketed {
        out.push('\x1b');
        out.push('[');
        out.push('2');
        out.push('0');
        out.push('0');
        out.push('~');
    }
    let ghost start = out@;
    let mut index: usize = 0;
    proof {
        assert(chars@.skip(0) =~= chars@);
    }
    while index < chars.len()
        invariant
            index <= chars@.len(),
            chars@ == text@,
            start + normalized_paste(text@) == out@ + normalized_paste(chars@.skip(index as int)),
        decreases chars@.len() - index,
    {
        let ghost rest = chars@.skip(index as int);
        let c = chars[index];
        proof {
            assert(rest[0] == c);
        }
        if c == '\r' && index + 1 < chars.len() && chars[index + 1] == '\n' {
            proof {
                assert(rest[1] == chars@[index + 1]);
                assert(rest.skip(2) =~= chars@.skip(index + 2));
                assert(out@.push('\n') + normalized_paste(rest.skip(2)) =~= out@ + (seq!['\n']
                    + normalized_paste(rest.skip(2))));
            }
            out.push('\n');
            index += 2;
        } else if c == '\0' {
            proof {
                assert(rest.skip(1) =~= chars@.skip(index + 1));
            }
            index += 1;
        } else {
            proof {
                assert(rest.skip(1) =~= chars@.skip(index + 1));
                if c == '\r' && rest.len() >= 2 {
                    assert(rest[1] == chars@[index + 1]);
                }
                assert(out@.push(c) + normalized_paste(rest.skip(1)) =~= out@ + (seq![c]
                    + normalized_paste(rest.skip(1))));
            }
            out.push(c);
            index += 1;
        }
    }
    proof {
        assert(chars@.skip(index as int) =~= Seq::<char>::empty());
        assert(out@ + Seq::<char>::empty() =~= out@);
    }
    if bracketed {
        out.push('\x1b');
        out.push('[');
        out.push('2');
        out.push('0');
        out.push('1');
        out.push('~');
        proof {
            assert(out@ =~= paste_payload(text@, bracketed));
        }
    } else {
        proof {
            assert(start =~= Seq::<char>::empty());
            assert(out@ =~= paste_payload(text@, bracketed));
        }
    }
    string_from_chars(&out)
}

/// The next position in a cycle of `len` places, forwards or backwards, wrapping around.
pub open spec fn cycled(index: int, len: int, forward: bool) -> int {
    if forward {
        (index + 1) % len
    } else if index >= 1 {
        index - 1
    } else {
        len - 1
    }
}

/// Steps to the next or previous of `len` places, wrapping around; used to switch workspaces.
pub fn cycle_index(index: usize, len: usize, forward: bool) -> (next: usize)
    requires
        len > 0,
        index < len,
    ensures
        next == cycled(index as int, len as int, forward),
        next < len,
{
    if forward {
        (index + 1) % len
    } else if index >= 1 {
        index - 1
    } else {
        len - 1
    }
}

/// The pane that focus moves to from `active` among `panes` (in layout order), forwards or
/// backwards with wrap-around; nothing when there are no panes or the active pane is not
/// among them.
pub open spec fn next_pane_focus(panes: Seq<PaneId>, active: Option<PaneId>, forward: bool) -> Option<
    PaneId,
> {
    if panes.len() == 0 {
        None
    } else {
        match active {
            Some(a) => {
                let i = crate::seq_facts::first_index(panes, a);
                if i < panes.len() {
                    Some(panes[cycled(i as int, panes.len() as int, forward)])
                } else {
                    None
                }
            },
            None => None,
        }
    }
}

/// Moves focus to the next or previous pane in layout order.
pub fn move_pane_focus(panes: &Vec<PaneId>, active: Option<PaneId>, forward: bool) -> (next:
    Option<PaneId>)
    ensures
        next == next_pane_focus(panes@, active, forward),
{
    if panes.len() == 0 {
        return None;
    }
    match active {
        None => None,
        Some(a) => {
            proof {
                crate::seq_facts::lemma_first_index_bounds(panes@, a);
            }
            let mut index: usize = 0;
            while index < panes.len()
                invariant
                    active == Some(a),
                    index <= panes@.len(),
                    forall|j: int| 0 <= j < index ==> panes@[j] != a,
                    crate::seq_facts::first_index(panes@, a) <= panes@.len(),
                    crate::seq_facts::first_index(panes@, a) < panes@.len() ==> panes@[crate::seq_facts::first_index(panes@, a) as int] == a,
                    forall|j: int| 0 <= j < crate::seq_facts::first_index(panes@, a) ==> panes@[j] != a,
                decreases panes@.len() - index,
            {
                if panes[index] == a {
                    proof {
                        let f = crate::seq_facts::first_index(panes@, a);
                        if f < index {
                            assert(panes@[f as int] == a);
                        }
                        if f > index {
                            assert(panes@[index as int] != a);
                        }
                        assert(f == index);
                    }
                    let next = cycle_index(index, panes.len(), forward);
                    return Some(panes[next]);
                }
                index += 1;
            }
            None
        },
    }
}

/// Home sends `ESC [ H` and End sends `ESC [ F`, whatever the cursor mode and with any modifiers
/// but Ctrl without Shift (which sends nothing for them).
pub proof fn home_and_end_sequences(modifiers: KeyModifiers, application_cursor: bool)
    ensures
        !(modifiers.ctrl && !modifiers.shift) ==> key_bytes(
            TerminalKey::Home,
            modifiers,
            application_cursor,
        ) == Some(seq![0x1bu8, 0x5bu8, 0x48u8]),
        !(modifiers.ctrl && !modifiers.shift) ==> key_bytes(
            TerminalKey::End,
            modifiers,
            application_cursor,
        ) == Some(seq![0x1bu8, 0x5bu8, 0x46u8]),
        modifiers.ctrl && !modifiers.shift ==> key_bytes(TerminalKey::Home, modifiers, application_cursor)
            is None && key_bytes(TerminalKey::End, modifiers, application_cursor) is None,
{
}

/// Cycling moves one place: forwards to the following place (from the last, to the first), and
/// a step backwards undoes a step forwards and the other way round.
pub proof fn cycling_steps_and_undoes(index: int, len: int)
    requires
        0 <= index < len,
    ensures
        0 <= cycled(index, len, true) < len,
        0 <= cycled(index, len, false) < len,
        index + 1 < len ==> cycled(index, len, true) == index + 1,
        index + 1 == len ==> cycled(index, len, true) == 0,
        cycled(cycled(index, len, true), len, false) == index,
        cycled(cycled(index, len, false), len, true) == index,
{
    if index + 1 < len {
        assert((index + 1) % len == index + 1) by (nonlinear_arith)
            requires
                0 <= index + 1 < len,
        ;
    } else {
        assert((index + 1) % len == 0) by (nonlinear_arith)
            requires
                index + 1 == len,
                len > 0,
        ;
    }
    if index >= 1 {
        assert(index % len == index) by (nonlinear_arith)
            requires
                0 <= index < len,
        ;
    } else {
        assert(len % len == 0) by (nonlinear_arith)
            requires
                len > 0,
        ;
    }
}

/// Among distinct panes, moving focus forwards and then backwards (or backwards and then
/// forwards) comes back to the pane it started from; moving backwards from a pane other than the
/// first reaches the pane before it.
pub proof fn focus_moves_undo_each_other(panes: Seq<PaneId>, i: int)
    requires
        panes.no_duplicates(),
        0 <= i < panes.len(),
    ensures
        next_pane_focus(panes, next_pane_focus(panes, Some(panes[i]), true), false) == Some(panes[i]),
        next_pane_focus(panes, next_pane_focus(panes, Some(panes[i]), false), true) == Some(panes[i]),
        i >= 1 ==> next_pane_focus(panes, Some(panes[i]), false) == Some(panes[i - 1]),
{
    let n = panes.len() as int;
    cycling_steps_and_undoes(i, n);
    crate::seq_facts::lemma_first_index_bounds(panes, panes[i]);
    assert(panes.contains(panes[i]));
    let f = cycled(i, n, true);
    let b = cycled(i, n, false);
    crate::seq_facts::lemma_first_index_bounds(panes, panes[f]);
    assert(panes.contains(panes[f]));
    crate::seq_facts::lemma_first_index_bounds(panes, panes[b]);
    assert(panes.contains(panes[b]));
}

/// The sequences of the keys without modifiers: Enter, Tab, Backspace and Escape send their
/// control characters; Delete, Insert, Page Up and Page Down send `ESC [ 3 ~`, `ESC [ 2 ~`,
/// `ESC [ 5 ~` and `ESC [ 6 ~`; F1 to F4 send `ESC O P` to `ESC O S`; F5 to F12 send
/// `ESC [ 15 ~`, `17`, `18`, `19`, `20`, `21`, `23` and `24`; arrows send `ESC [ A` to `ESC [ D`
/// (up, down, right, left), or `ESC O A` to `ESC O D` in application cursor mode.
pub proof fn unmodified_key_sequences(application_cursor: bool)
    ensures
        ({
            let none = KeyModifiers { ctrl: false, shift: false, alt: false };
            let shift = KeyModifiers { ctrl: false, shift: true, alt: false };
            let arrow_lead: u8 = if application_cursor { 0x4fu8 } else { 0x5bu8 };
            &&& key_bytes(TerminalKey::Enter, none, application_cursor) == Some(seq![0x0du8])
            &&& key_bytes(TerminalKey::Tab, none, application_cursor) == Some(seq![0x09u8])
            &&& key_bytes(TerminalKey::Tab, shift, application_cursor) == Some(
                seq![0x1bu8, 0x5bu8, 0x5au8],
            )
            &&& key_bytes(TerminalKey::Backspace, none, application_cursor) == Some(seq![0x7fu8])
            &&& key_bytes(TerminalKey::Escape, none, application_cursor) == Some(seq![0x1bu8])
            &&& key_bytes(TerminalKey::Delete, none, application_cursor) == Some(
                seq![0x1bu8, 0x5bu8, 0x33u8, 0x7eu8],
            )
            &&& key_bytes(TerminalKey::Insert, none, application_cursor) == Some(
                seq![0x1bu8, 0x5bu8, 0x32u8, 0x7eu8],
            )
            &&& key_bytes(TerminalKey::PageUp, none, application_cursor) == Some(
                seq![0x1bu8, 0x5bu8, 0x35u8, 0x7eu8],
            )
            &&& key_bytes(TerminalKey::PageDown, none, application_cursor) == Some(
                seq![0x1bu8, 0x5bu8, 0x36u8, 0x7eu8],
            )
            &&& key_bytes(TerminalKey::ArrowUp, none, application_cursor) == Some(
                seq![0x1bu8, arrow_lead, 0x41u8],
            )
            &&& key_bytes(TerminalKey::ArrowDown, none, application_cursor) == Some(
                seq![0x1bu8, arrow_lead, 0x42u8],
            )
            &&& key_bytes(TerminalKey::ArrowRight, none, application_cursor) == Some(
                seq![0x1bu8, arrow_lead, 0x43u8],
            )
            &&& key_bytes(TerminalKey::ArrowLeft, none, application_cursor) == Some(
                seq![0x1bu8, arrow_lead, 0x44u8],
            )
            &&& key_bytes(TerminalKey::Function(1), none, application_cursor) == Some(
                seq![0x1bu8, 0x4fu8, 0x50u8],
            )
            &&& key_bytes(TerminalKey::Function(2), none, application_cursor) == Some(
                seq![0x1bu8, 0x4fu8, 0x51u8],
            )
            &&& key_bytes(TerminalKey::Function(3), none, application_cursor) == Some(
                seq![0x1bu8, 0x4fu8, 0x52u8],
            )
            &&& key_bytes(TerminalKey::Function(4), none, application_cursor) == Some(
                seq![0x1bu8, 0x4fu8, 0x53u8],
            )
            &&& key_bytes(TerminalKey::Function(5), none, application_cursor) == Some(
                seq![0x1bu8, 0x5bu8, 0x31u8, 0x35u8, 0x7eu8],
            )
            &&& key_bytes(TerminalKey::Function(6), none, application_cursor) == Some(
                seq![0x1bu8, 0x5bu8, 0x31u8, 0x37u8, 0x7eu8],
            )
            &&& key_bytes(TerminalKey::Function(7), none, application_cursor) == Some(
                seq![0x1bu8, 0x5bu8, 0x31u8, 0x38u8, 0x7eu8],
            )
            &&& key_bytes(TerminalKey::Function(8), none, application_cursor) == Some(
                seq![0x1bu8, 0x5bu8, 0x31u8, 0x39u8, 0x7eu8],
            )
            &&& key_bytes(TerminalKey::Function(9), none, application_cursor) == Some(
                seq![0x1bu8, 0x5bu8, 0x32u8, 0x30u8, 0x7eu8],
            )
            &&& key_bytes(TerminalKey::Function(10), none, application_cursor) == Some(
                seq![0x1bu8, 0x5bu8, 0x32u8, 0x31u8, 0x7eu8],
            )
            &&& key_bytes(TerminalKey::Function(11), none, application_cursor) == Some(
                seq![0x1bu8, 0x5bu8, 0x32u8, 0x33u8, 0x7eu8],
            )
            &&& key_bytes(TerminalKey::Function(12), none, application_cursor) == Some(
                seq![0x1bu8, 0x5bu8, 0x32u8, 0x34u8, 0x7eu8],
            )
            &&& key_bytes(TerminalKey::Function(0), none, application_cursor) is None
            &&& key_bytes(TerminalKey::Function(13), none, application_cursor) is None
            &&& key_bytes(TerminalKey::Other, none, application_cursor) is None
        }),
{
}

/// Ctrl with a letter (and without Shift) sends the letter's control character, `0x01` for A up
/// to `0x1a` for Z, whatever Alt and the cursor mode; an arrow with any of Shift, Alt and Ctrl
/// sends `ESC [ 1 ; m` and its final letter, `m` being 1 plus 1 for Shift, 2 for Alt and 4 for
/// Ctrl.
pub proof fn control_letters_and_modified_arrows(
    letter: u8,
    modifiers: KeyModifiers,
    application_cursor: bool,
)
    ensures
        modifiers.ctrl && !modifiers.shift && letter < 26 ==> key_bytes(
            TerminalKey::Letter(letter),
            modifiers,
            application_cursor,
        ) == Some(seq![(letter + 1) as u8]),
        (modifiers.shift || modifiers.alt || modifiers.ctrl) ==> key_bytes(
            TerminalKey::ArrowUp,
            modifiers,
            application_cursor,
        ) == Some(
            seq![
                0x1bu8,
                0x5bu8,
                0x31u8,
                0x3bu8,
                (0x31 + (if modifiers.shift { 1int } else { 0 }) + (if modifiers.alt { 2int } else { 0 })
                    + (if modifiers.ctrl { 4int } else { 0 })) as u8,
                0x41u8,
            ],
        ),
        (modifiers.shift || modifiers.alt || modifiers.ctrl) ==> key_bytes(
            TerminalKey::ArrowLeft,
            modifiers,
            application_cursor,
        ) == Some(
            seq![
                0x1bu8,
                0x5bu8,
                0x31u8,
                0x3bu8,
                (0x31 + (if modifiers.shift { 1int } else { 0 }) + (if modifiers.alt { 2int } else { 0 })
                    + (if modifiers.ctrl { 4int } else { 0 })) as u8,
                0x44u8,
            ],
        ),
{
}

} // verus!
