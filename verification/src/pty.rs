use vstd::prelude::*;

use crate::text::{char_is_whitespace, chars_of, is_whitespace_char, string_from_chars};

verus! {

/// The size of a terminal's character grid.
#[derive(Clone, Copy, Debug, PartialEq, Eq, Structural)]
pub struct PtySize {
    pub columns: u16,
    pub rows: u16,
}

/// A character-cell coordinate pair in the signed 16-bit form the console API takes.
#[derive(Clone, Copy, Debug, PartialEq, Eq, Structural)]
pub struct CellCoord {
    pub x: i16,
    pub y: i16,
}

/// Why a terminal operation failed.
#[derive(Clone, Copy, Debug, PartialEq, Eq)]
pub enum PtyError {
    InvalidSize { columns: u16, rows: u16 },
    EmbeddedNull,
    WriteZero,
    PipeAlreadyTaken(&'static str),
    StructureSizeOverflow,
    UnexpectedWaitResult(u32),
    /// A console call failed with this `HRESULT`.
    Windows { code: i32 },
}

/// A size the console accepts: both dimensions non-zero and at most `i16::MAX`.
pub open spec fn size_accepted(columns: u16, rows: u16) -> bool {
    columns != 0 && rows != 0 && columns <= i16::MAX && rows <= i16::MAX
}

impl PtySize {
    /// A character-cell size accepted by the console's coordinate type; refuses a zero
    /// dimension or one beyond `i16::MAX` with `InvalidSize`.
    pub fn new(columns: u16, rows: u16) -> (size: Result<Self, PtyError>)
        ensures
            size_accepted(columns, rows) ==> size == Ok::<PtySize, PtyError>(PtySize { columns, rows }),
            !size_accepted(columns, rows) ==> size == Err::<PtySize, PtyError>(
                PtyError::InvalidSize { columns, rows },
            ),
    {
        if columns == 0 || rows == 0 || columns > 32767 || rows > 32767 {
            return Err(PtyError::InvalidSize { columns, rows });
        }
        Ok(PtySize { columns, rows })
    }

    /// The size as a console coordinate: columns as `x`, rows as `y`.
    pub fn coord(self) -> (coord: CellCoord)
        requires
            self.columns <= i16::MAX,
            self.rows <= i16::MAX,
        ensures
            coord.x == self.columns,
            coord.y == self.rows,
    {
        CellCoord { x: self.columns as i16, y: self.rows as i16 }
    }
}

/// A program to start inside a terminal.
#[derive(Clone, Debug, PartialEq, Eq)]
pub struct SpawnCommand {
    pub executable: String,
    pub arguments: Vec<String>,
    pub current_directory: String,
}

impl SpawnCommand {
    /// A command with no arguments.
    pub fn new(executable: String, current_directory: String) -> (command: Self)
        ensures
            command.executable@ == executable@,
            command.arguments@.len() == 0,
            command.current_directory@ == current_directory@,
    {
        SpawnCommand { executable, arguments: Vec::new(), current_directory }
    }

    /// The command with its arguments replaced by `arguments`.
    pub fn arguments(self, arguments: Vec<String>) -> (command: Self)
        ensures
            command.executable == self.executable,
            command.arguments == arguments,
            command.current_directory == self.current_directory,
    {
        SpawnCommand { arguments, ..self }
    }
}

/// The exit code of a terminal's root process.
#[derive(Clone, Copy, Debug, PartialEq, Eq, Structural)]
pub struct ExitStatus {
    pub code: u32,
}

/// `count` copies of `c`.
pub open spec fn repeated(c: char, count: nat) -> Seq<char> {
    Seq::new(count, |_i: int| c)
}

/// Whether an argument must be quoted: it is empty, or holds whitespace or a double quote.
pub open spec fn needs_quotes(argument: Seq<char>) -> bool {
    argument.len() == 0 || exists|i: int|
        0 <= i < argument.len() && (is_whitespace_char(#[trigger] argument[i]) || argument[i]
            == '"')
}

/// The inside of a quoted argument, given `pending` backslashes not yet written: backslashes
/// before a double quote are doubled and the quote escaped, backslashes before the closing quote
/// are doubled, other backslashes are kept.
pub open spec fn quoted_body(argument: Seq<char>, pending: nat) -> Seq<char>
    decreases argument.len(),
{
    if argument.len() == 0 {
        repeated('\\', 2 * pending)
    } else if argument[0] == '\\' {
        quoted_body(argument.drop_first(), pending + 1)
    } else if argument[0] == '"' {
        repeated('\\', 2 * pending + 1) + seq!['"'] + quoted_body(argument.drop_first(), 0)
    } else {
        repeated('\\', pending) + seq![argument[0]] + quoted_body(argument.drop_first(), 0)
    }
}

/// An argument as the Windows command-line parser reads it back: unchanged when it needs no
/// quotes, else wrapped in double quotes with its inside escaped.
pub open spec fn quoted_argument(argument: Seq<char>) -> Seq<char> {
    if !needs_quotes(argument) {
        argument
    } else {
        seq!['"'] + quoted_body(argument, 0) + seq!['"']
    }
}

/// The first argument that the Windows command-line rules read from `text`, inside double
/// quotes or not, with `backslashes` backslashes read but not yet placed: a run of backslashes
/// before a double quote gives half of them, and the quote is literal after an odd run and
/// toggles quoting after an even one; other backslashes are literal; whitespace outside
/// quotes ends the argument.
pub open spec fn argument_read(text: Seq<char>, in_quotes: bool, backslashes: nat) -> Seq<char>
    decreases text.len(),
{
    if text.len() == 0 {
        repeated('\\', backslashes)
    } else if text[0] == '\\' {
        argument_read(text.drop_first(), in_quotes, backslashes + 1)
    } else if text[0] == '"' {
        if backslashes % 2 == 0 {
            repeated('\\', backslashes / 2) + argument_read(text.drop_first(), !in_quotes, 0)
        } else {
            repeated('\\', backslashes / 2) + seq!['"'] + argument_read(
                text.drop_first(),
                in_quotes,
                0,
            )
        }
    } else if is_whitespace_char(text[0]) && !in_quotes {
        repeated('\\', backslashes)
    } else {
        repeated('\\', backslashes) + seq![text[0]] + argument_read(text.drop_first(), in_quotes, 0)
    }
}

proof fn lemma_read_backslashes(count: nat, rest: Seq<char>, in_quotes: bool, backslashes: nat)
    ensures
        argument_read(repeated('\\', count) + rest, in_quotes, backslashes) == argument_read(
            rest,
            in_quotes,
            backslashes + count,
        ),
    decreases count,
{
    if count > 0 {
        let text = repeated('\\', count) + rest;
        assert(text[0] == '\\');
        assert(text.drop_first() =~= repeated('\\', (count - 1) as nat) + rest);
        lemma_read_backslashes((count - 1) as nat, rest, in_quotes, backslashes + 1);
    } else {
        assert(repeated('\\', count) + rest =~= rest);
    }
}

proof fn lemma_read_plain(argument: Seq<char>, backslashes: nat)
    requires
        forall|i: int|
            0 <= i < argument.len() ==> !is_whitespace_char(#[trigger] argument[i]) && argument[i]
                != '"',
    ensures
        argument_read(argument, false, backslashes) == repeated('\\', backslashes) + argument,
    decreases argument.len(),
{
    if argument.len() == 0 {
        assert(repeated('\\', backslashes) + argument =~= repeated('\\', backslashes));
    } else {
        let rest = argument.drop_first();
        assert(!is_whitespace_char(argument[0]) && argument[0] != '"');
        assert forall|i: int| 0 <= i < rest.len() implies !is_whitespace_char(#[trigger] rest[i])
            && rest[i] != '"' by {
            assert(rest[i] == argument[i + 1]);
        }
        if argument[0] == '\\' {
            lemma_read_plain(rest, backslashes + 1);
            assert(repeated('\\', backslashes + 1) + rest =~= repeated('\\', backslashes) + argument);
        } else {
            lemma_read_plain(rest, 0);
            assert(repeated('\\', 0) + rest =~= rest);
            assert(repeated('\\', backslashes) + seq![argument[0]] + rest =~= repeated(
                '\\',
                backslashes,
            ) + argument);
        }
    }
}

proof fn lemma_read_quoted_body(argument: Seq<char>, pending: nat)
    ensures
        argument_read(quoted_body(argument, pending) + seq!['"'], true, 0) == repeated(
            '\\',
            pending,
        ) + argument,
    decreases argument.len(),
{
    let closing = seq!['"'];
    if argument.len() == 0 {
        lemma_read_backslashes(2 * pending, closing, true, 0);
        assert(closing[0] == '"');
        assert(closing.drop_first() =~= Seq::<char>::empty());
        assert((2 * pending) / 2 == pending);
        assert((2 * pending) % 2 == 0);
        assert(repeated('\\', 0) =~= Seq::<char>::empty());
        assert(argument_read(closing, true, 2 * pending) == repeated('\\', pending) + argument_read(
            Seq::<char>::empty(),
            false,
            0,
        ));
        assert(repeated('\\', pending) + Seq::<char>::empty() =~= repeated('\\', pending) + argument);
    } else {
        let rest = argument.drop_first();
        if argument[0] == '\\' {
            lemma_read_quoted_body(rest, pending + 1);
            assert(repeated('\\', pending + 1) + rest =~= repeated('\\', pending) + argument);
        } else if argument[0] == '"' {
            let tail = quoted_body(rest, 0) + closing;
            lemma_read_quoted_body(rest, 0);
            assert(quoted_body(argument, pending) + closing =~= repeated('\\', 2 * pending + 1) + (
            seq!['"'] + tail));
            lemma_read_backslashes(2 * pending + 1, seq!['"'] + tail, true, 0);
            assert((seq!['"'] + tail)[0] == '"');
            assert((seq!['"'] + tail).drop_first() =~= tail);
            assert((2 * pending + 1) / 2 == pending);
            assert((2 * pending + 1) % 2 == 1);
            assert(repeated('\\', 0) + rest =~= rest);
            assert(repeated('\\', pending) + seq!['"'] + rest =~= repeated('\\', pending) + argument);
        } else {
            let c = argument[0];
            let tail = quoted_body(rest, 0) + closing;
            lemma_read_quoted_body(rest, 0);
            assert(quoted_body(argument, pending) + closing =~= repeated('\\', pending) + (seq![c]
                + tail));
            lemma_read_backslashes(pending, seq![c] + tail, true, 0);
            assert((seq![c] + tail)[0] == c);
            assert((seq![c] + tail).drop_first() =~= tail);
            assert(repeated('\\', 0) + rest =~= rest);
            assert(repeated('\\', pending) + seq![c] + rest =~= repeated('\\', pending) + argument);
        }
    }
}

/// A quoted argument reads back as itself: the Windows command-line rules take from
/// `quoted_argument(a)` exactly the argument `a`.
pub proof fn quoting_reads_back(argument: Seq<char>)
    ensures
        argument_read(quoted_argument(argument), false, 0) == argument,
{
    if !needs_quotes(argument) {
        assert forall|i: int| 0 <= i < argument.len() implies !is_whitespace_char(
            #[trigger] argument[i],
        ) && argument[i] != '"' by {
            if is_whitespace_char(argument[i]) || argument[i] == '"' {
                assert(needs_quotes(argument));
            }
        }
        lemma_read_plain(argument, 0);
        assert(repeated('\\', 0) + argument =~= argument);
    } else {
        let text = seq!['"'] + quoted_body(argument, 0) + seq!['"'];
        assert(text[0] == '"');
        assert(text.drop_first() =~= quoted_body(argument, 0) + seq!['"']);
        lemma_read_quoted_body(argument, 0);
        assert(repeated('\\', 0) + argument =~= argument);
        assert(repeated('\\', 0) + argument_read(text.drop_first(), true, 0) =~= argument);
    }
}

fn push_repeated(out: &mut Vec<char>, c: char, count: usize)
    ensures
        final(out)@ == old(out)@ + repeated(c, count as nat),
{
    let mut index: usize = 0;
    while index < count
        invariant
            index <= count,
            out@ == old(out)@ + repeated(c, index as nat),
        decreases count - index,
    {
        out.push(c);
        index += 1;
        proof {
            assert(out@ =~= old(out)@ + repeated(c, index as nat));
        }
    }
}

fn argument_needs_quotes(argument: &Vec<char>) -> (needs: bool)
    ensures
        needs == needs_quotes(argument@),
{
    if argument.len() == 0 {
        return true;
    }
    let mut index: usize = 0;
    while index < argument.len()
        invariant
            index <= argument@.len(),
            forall|i: int|
                0 <= i < index ==> !(is_whitespace_char(#[trigger] argument@[i]) || argument@[i]
                    == '"'),
        decreases argument@.len() - index,
    {
        let c = argument[index];
        if char_is_whitespace(c) || c == '"' {
            return true;
        }
        index += 1;
    }
    false
}

fn quote_chars(argument: &Vec<char>) -> (quoted: Vec<char>)
    ensures
        quoted@ == quoted_argument(argument@),
{
    if !argument_needs_quotes(argument) {
        return argument.clone();
    }
    let mut out: Vec<char> = Vec::new();
    out.push('"');
    let mut pending: usize = 0;
    let mut index: usize = 0;
    proof {
        assert(argument@.skip(0) =~= argument@);
        assert(seq!['"'] + quoted_body(argument@, 0) =~= out@ + quoted_body(argument@.skip(0), 0));
    }
    while index < argument.len()
        invariant
            index <= argument@.len(),
            pending <= index,
            seq!['"'] + quoted_body(argument@, 0) == out@ + quoted_body(
                argument@.skip(index as int),
                pending as nat,
            ),
        decreases argument@.len() - index,
    {
        let c = argument[index];
        let ghost rest = argument@.skip(index as int);
        proof {
            assert(rest[0] == c);
            assert(rest.drop_first() =~= argument@.skip(index + 1));
        }
        if c == '\\' {
            pending += 1;
        } else if c == '"' {
            let ghost before = out@;
            push_repeated(&mut out, '\\', pending);
            push_repeated(&mut out, '\\', pending);
            out.push('\\');
            out.push('"');
            proof {
                assert(repeated('\\', 2 * pending as nat + 1) =~= repeated('\\', pending as nat)
                    + repeated('\\', pending as nat) + seq!['\\']);
                assert(out@ =~= before + repeated('\\', 2 * pending as nat + 1) + seq!['"']);
            }
            pending = 0;
        } else {
            let ghost before = out@;
            push_repeated(&mut out, '\\', pending);
            out.push(c);
            proof {
                assert(out@ =~= before + repeated('\\', pending as nat) + seq![c]);
            }
            pending = 0;
        }
        index += 1;
    }
    let ghost before = out@;
    push_repeated(&mut out, '\\', pending);
    push_repeated(&mut out, '\\', pending);
    out.push('"');
    proof {
        assert(argument@.skip(index as int).len() == 0);
        assert(repeated('\\', 2 * pending as nat) =~= repeated('\\', pending as nat) + repeated(
            '\\',
            pending as nat,
        ));
        assert(out@ =~= before + repeated('\\', 2 * pending as nat) + seq!['"']);
    }
    out
}

/// Quotes one command-line argument the way the Windows command-line parser reads it back.
pub fn quote_windows_argument(argument: &str) -> (quoted: String)
    ensures
        quoted@ == quoted_argument(argument@),
{
    let chars = chars_of(argument);
    let quoted = quote_chars(&chars);
    string_from_chars(&quoted)
}

/// The UTF-16 code units of one character: itself below `0x10000`, else a surrogate pair.
pub open spec fn utf16_of_char(c: char) -> Seq<u16> {
    let v = c as u32;
    if v < 0x10000 {
        seq![v as u16]
    } else {
        seq![(0xD800 + ((v - 0x10000) as u32 >> 10)) as u16, (0xDC00 + ((v - 0x10000) as u32 & 0x3ff)) as u16]
    }
}

/// The UTF-16 encoding of a text.
pub open spec fn utf16(text: Seq<char>) -> Seq<u16>
    decreases text.len(),
{
    if text.len() == 0 {
        seq![]
    } else {
        utf16(text.drop_last()) + utf16_of_char(text.last())
    }
}

/// The arguments part of a command line: each argument quoted, preceded by a space.
pub open spec fn quoted_arguments(arguments: Seq<Seq<char>>) -> Seq<char>
    decreases arguments.len(),
{
    if arguments.len() == 0 {
        seq![]
    } else {
        quoted_arguments(arguments.drop_last()) + seq![' '] + quoted_argument(arguments.last())
    }
}

/// The command line of a program and its arguments, each quoted, separated by spaces.
pub open spec fn command_line(executable: Seq<char>, arguments: Seq<Seq<char>>) -> Seq<char> {
    quoted_argument(executable) + quoted_arguments(arguments)
}

/// The texts of a list of strings.
pub open spec fn texts(strings: Seq<String>) -> Seq<Seq<char>> {
    strings.map_values(|s: String| s@)
}

proof fn lemma_utf16_of_char(c: char)
    ensures
        utf16_of_char(c).contains(0u16) <==> c == '\0',
{
    let v = c as u32;
    if v >= 0x10000 {
        let w = (v - 0x10000) as u32;
        assert((0xD800 + (w >> 10)) as u16 != 0u16 && (0xDC00 + (w & 0x3ff)) as u16 != 0u16) by (bit_vector)
            requires w <= 0xfffff;
        assert(utf16_of_char(c)[0] != 0u16 && utf16_of_char(c)[1] != 0u16);
        assert(utf16_of_char(c).len() == 2);
    } else {
        assert(utf16_of_char(c)[0] == v as u16);
        if c == '\0' {
            assert(utf16_of_char(c).contains(0u16));
        }
    }
}

fn push_utf16(units: &mut Vec<u16>, c: char)
    ensures
        final(units)@ == old(units)@ + utf16_of_char(c),
{
    let v = c as u32;
    if v < 0x10000 {
        units.push(v as u16);
    } else {
        let w = v - 0x10000;
        assert(v <= 0x10ffff);
        assert((w >> 10) <= 0x3ff && (w & 0x3ff) <= 0x3ff) by (bit_vector)
            requires
                w <= 0xfffff,
        ;
        units.push((0xD800 + (w >> 10)) as u16);
        units.push((0xDC00 + (w & 0x3ff)) as u16);
    }
    proof {
        assert(final(units)@ =~= old(units)@ + utf16_of_char(c));
    }
}

/// The UTF-16 units of a command line followed by a terminating zero; refuses with
/// `EmbeddedNull` a text whose encoding already holds a zero unit.
fn to_wide_null(text: &Vec<char>) -> (wide: Result<Vec<u16>, PtyError>)
    ensures
        utf16(text@).contains(0u16) ==> wide == Err::<Vec<u16>, PtyError>(PtyError::EmbeddedNull),
        !utf16(text@).contains(0u16) ==> (wide matches Ok(units) && units@ == utf16(text@).push(0u16)),
{
    let mut units: Vec<u16> = Vec::new();
    let mut index: usize = 0;
    while index < text.len()
        invariant
            index <= text@.len(),
            units@ == utf16(text@.take(index as int)),
            !utf16(text@.take(index as int)).contains(0u16),
        decreases text@.len() - index,
    {
        let c = text[index];
        proof {
            let next = text@.take(index + 1);
            assert(next.drop_last() =~= text@.take(index as int));
            assert(next.last() == c);
            lemma_utf16_of_char(c);
            crate::seq_facts::lemma_concat_contains(utf16(text@.take(index as int)), utf16_of_char(c), 0u16);
        }
        if c == '\0' {
            proof {
                lemma_utf16_contains_prefix(text@, index as int + 1);
            }
            return Err(PtyError::EmbeddedNull);
        }
        push_utf16(&mut units, c);
        index += 1;
    }
    proof {
        assert(text@.take(text@.len() as int) =~= text@);
    }
    units.push(0);
    Ok(units)
}

proof fn lemma_utf16_concat(a: Seq<char>, b: Seq<char>)
    ensures
        utf16(a + b) == utf16(a) + utf16(b),
    decreases b.len(),
{
    if b.len() == 0 {
        assert(a + b =~= a);
        assert(utf16(a) + utf16(b) =~= utf16(a));
    } else {
        lemma_utf16_concat(a, b.drop_last());
        assert((a + b).drop_last() =~= a + b.drop_last());
        assert((a + b).last() == b.last());
        assert(utf16(a) + utf16(b) =~= utf16(a) + utf16(b.drop_last()) + utf16_of_char(b.last()));
    }
}

proof fn lemma_utf16_contains_prefix(text: Seq<char>, k: int)
    requires
        0 <= k <= text.len(),
        utf16(text.take(k)).contains(0u16),
    ensures
        utf16(text).contains(0u16),
{
    lemma_utf16_concat(text.take(k), text.skip(k));
    assert(text.take(k) + text.skip(k) =~= text);
    crate::seq_facts::lemma_concat_contains(utf16(text.take(k)), utf16(text.skip(k)), 0u16);
}

/// The UTF-16 command line that starts `executable` with `arguments`, zero-terminated; refuses
/// with `EmbeddedNull` one that holds a zero.
pub fn build_command_line(executable: &str, arguments: &Vec<String>) -> (line: Result<Vec<u16>, PtyError>)
    ensures
        ({
            let text = command_line(executable@, texts(arguments@));
            &&& utf16(text).contains(0u16) ==> line == Err::<Vec<u16>, PtyError>(PtyError::EmbeddedNull)
            &&& !utf16(text).contains(0u16) ==> (line matches Ok(units) && units@ == utf16(text).push(0u16))
        }),
{
    let mut text = quote_chars(&chars_of(executable));
    let mut index: usize = 0;
    while index < arguments.len()
        invariant
            index <= arguments@.len(),
            text@ == quoted_argument(executable@) + quoted_arguments(texts(arguments@).take(index as int)),
        decreases arguments@.len() - index,
    {
        let quoted = quote_chars(&chars_of(arguments[index].as_str()));
        let ghost before = text@;
        text.push(' ');
        let mut j: usize = 0;
        while j < quoted.len()
            invariant
                j <= quoted@.len(),
                text@ == before.push(' ') + quoted@.take(j as int),
            decreases quoted@.len() - j,
        {
            text.push(quoted[j]);
            proof {
                assert(quoted@.take(j + 1) =~= quoted@.take(j as int).push(quoted@[j as int]));
            }
            j += 1;
        }
        proof {
            assert(quoted@.take(quoted@.len() as int) =~= quoted@);
            let all = texts(arguments@);
            assert(all.take(index + 1).drop_last() =~= all.take(index as int));
            assert(all.take(index + 1).last() == arguments@[index as int]@);
            assert(text@ =~= quoted_argument(executable@) + quoted_arguments(all.take(index + 1)));
        }
        index += 1;
    }
    proof {
        assert(texts(arguments@).take(arguments@.len() as int) =~= texts(arguments@));
    }
    to_wide_null(&text)
}

/// The output end of a pseudoconsole, to be read by a worker of its own; it holds the raw value
/// of the pipe handle.
pub struct ConPtyReader {
    handle: u64,
}

/// The input end of a pseudoconsole, to be written by a worker of its own; it holds the raw
/// value of the pipe handle.
pub struct ConPtyWriter {
    handle: u64,
}

impl ConPtyReader {
    /// The raw value of the pipe handle.
    pub closed spec fn spec_handle(&self) -> u64 {
        self.handle
    }

    /// The raw value of the pipe handle.
    pub fn raw_handle(&self) -> (handle: u64)
        ensures
            handle == self.spec_handle(),
    {
        self.handle
    }
}

impl ConPtyWriter {
    /// The raw value of the pipe handle.
    pub closed spec fn spec_handle(&self) -> u64 {
        self.handle
    }

    /// The raw value of the pipe handle.
    pub fn raw_handle(&self) -> (handle: u64)
        ensures
            handle == self.spec_handle(),
    {
        self.handle
    }
}

/// A running pseudoconsole session: its root process, its grid size, and the two pipe ends,
/// each of which can be handed out once.
pub struct ConPtySession {
    input: Option<u64>,
    output: Option<u64>,
    process_id: u32,
    size: PtySize,
}

impl ConPtySession {
    /// The input pipe, while it has not been handed out.
    pub closed spec fn input_handle(&self) -> Option<u64> {
        self.input
    }

    /// The output pipe, while it has not been handed out.
    pub closed spec fn output_handle(&self) -> Option<u64> {
        self.output
    }

    pub closed spec fn spec_process_id(&self) -> u32 {
        self.process_id
    }

    pub closed spec fn spec_size(&self) -> PtySize {
        self.size
    }

    /// The session of a started root process, with both pipes still held.
    pub fn from_parts(process_id: u32, size: PtySize, input_handle: u64, output_handle: u64) -> (session: Self)
        ensures
            session.spec_process_id() == process_id,
            session.spec_size() == size,
            session.input_handle() == Some(input_handle),
            session.output_handle() == Some(output_handle),
    {
        ConPtySession { input: Some(input_handle), output: Some(output_handle), process_id, size }
    }

    /// The root process's identifier.
    pub fn process_id(&self) -> (id: u32)
        ensures
            id == self.spec_process_id(),
    {
        self.process_id
    }

    /// The current grid size.
    pub fn size(&self) -> (size: PtySize)
        ensures
            size == self.spec_size(),
    {
        self.size
    }

    /// Records the grid size after the console accepted a resize.
    pub fn record_resize(&mut self, size: PtySize)
        ensures
            final(self).spec_size() == size,
            final(self).spec_process_id() == old(self).spec_process_id(),
            final(self).input_handle() == old(self).input_handle(),
            final(self).output_handle() == old(self).output_handle(),
    {
        self.size = size;
    }

    /// Hands the output pipe to a reader, once; a second call fails with
    /// `PipeAlreadyTaken("output")`.
    pub fn take_reader(&mut self) -> (reader: Result<ConPtyReader, PtyError>)
        ensures
            match old(self).output_handle() {
                Some(handle) => reader matches Ok(r) && r.spec_handle() == handle,
                None => reader == Err::<ConPtyReader, PtyError>(PtyError::PipeAlreadyTaken("output")),
            },
            final(self).output_handle() is None,
            final(self).input_handle() == old(self).input_handle(),
            final(self).spec_process_id() == old(self).spec_process_id(),
            final(self).spec_size() == old(self).spec_size(),
    {
        match self.output.take() {
            Some(handle) => Ok(ConPtyReader { handle }),
            None => Err(PtyError::PipeAlreadyTaken("output")),
        }
    }

    /// Hands the input pipe to a writer, once; a second call fails with
    /// `PipeAlreadyTaken("input")`.
    pub fn take_writer(&mut self) -> (writer: Result<ConPtyWriter, PtyError>)
        ensures
            match old(self).input_handle() {
                Some(handle) => writer matches Ok(w) && w.spec_handle() == handle,
                None => writer == Err::<ConPtyWriter, PtyError>(PtyError::PipeAlreadyTaken("input")),
            },
            final(self).input_handle() is None,
            final(self).output_handle() == old(self).output_handle(),
            final(self).spec_process_id() == old(self).spec_process_id(),
            final(self).spec_size() == old(self).spec_size(),
    {
        match self.input.take() {
            Some(handle) => Ok(ConPtyWriter { handle }),
            None => Err(PtyError::PipeAlreadyTaken("input")),
        }
    }
}

impl ConPtySession {
    /// Checks whether the root process has exited, from what the zero-timeout wait on its handle
    /// returned and, once it has exited, what reading its exit code gave (see `wait_outcome`).
    pub fn try_wait(&self, wait_result: u32, exit_code: Result<u32, PtyError>) -> (outcome: Result<
        Option<ExitStatus>,
        PtyError,
    >)
        ensures
            wait_result == WAIT_TIMEOUT ==> outcome == Ok::<Option<ExitStatus>, PtyError>(None),
            wait_result != WAIT_TIMEOUT && wait_result != WAIT_OBJECT_0 ==> outcome == Err::<
                Option<ExitStatus>,
                PtyError,
            >(PtyError::UnexpectedWaitResult(wait_result)),
            wait_result == WAIT_OBJECT_0 ==> match exit_code {
                Ok(code) => outcome == Ok::<Option<ExitStatus>, PtyError>(Some(ExitStatus { code })),
                Err(error) => outcome == Err::<Option<ExitStatus>, PtyError>(error),
            },
    {
        wait_outcome(wait_result, exit_code)
    }
}

/// The value `WaitForSingleObject` returns when the process has exited.
pub const WAIT_OBJECT_0: u32 = 0;

/// The value `WaitForSingleObject` returns when the time ran out first.
pub const WAIT_TIMEOUT: u32 = 0x102;

/// The wait in milliseconds for a timeout: the timeout where it fits in `u32`, else
/// `u32::MAX - 1` (one below the value that means forever).
pub fn wait_timeout_millis(timeout_millis: u128) -> (millis: u32)
    ensures
        millis == if timeout_millis <= u32::MAX {
            timeout_millis as u32
        } else {
            (u32::MAX - 1) as u32
        },
{
    if timeout_millis <= 0xffff_ffff {
        timeout_millis as u32
    } else {
        0xffff_fffe
    }
}

/// What a wait for the root process says, given what `WaitForSingleObject` returned and, once
/// the process has exited, what reading its exit code gave: still running on a timeout; the exit
/// status once it has exited; `UnexpectedWaitResult` for any other wait result.
pub fn wait_outcome(wait_result: u32, exit_code: Result<u32, PtyError>) -> (outcome: Result<
    Option<ExitStatus>,
    PtyError,
>)
    ensures
        wait_result == WAIT_TIMEOUT ==> outcome == Ok::<Option<ExitStatus>, PtyError>(None),
        wait_result != WAIT_TIMEOUT && wait_result != WAIT_OBJECT_0 ==> outcome == Err::<
            Option<ExitStatus>,
            PtyError,
        >(PtyError::UnexpectedWaitResult(wait_result)),
        wait_result == WAIT_OBJECT_0 ==> match exit_code {
            Ok(code) => outcome == Ok::<Option<ExitStatus>, PtyError>(Some(ExitStatus { code })),
            Err(error) => outcome == Err::<Option<ExitStatus>, PtyError>(error),
        },
{
    if wait_result == WAIT_TIMEOUT {
        return Ok(None);
    }
    if wait_result != WAIT_OBJECT_0 {
        return Err(PtyError::UnexpectedWaitResult(wait_result));
    }
    match exit_code {
        Ok(code) => Ok(Some(ExitStatus { code })),
        Err(error) => Err(error),
    }
}

/// What is left to write after a pipe write accepted `written` of `remaining` bytes; a write
/// that accepted nothing fails with `WriteZero`.
pub fn remaining_after_write(remaining: usize, written: u32) -> (left: Result<usize, PtyError>)
    requires
        written <= remaining,
    ensures
        written == 0 ==> left == Err::<usize, PtyError>(PtyError::WriteZero),
        written != 0 ==> left == Ok::<usize, PtyError>((remaining - written) as usize),
{
    if written == 0 {
        Err(PtyError::WriteZero)
    } else {
        Ok(remaining - written as usize)
    }
}

} // verus!
