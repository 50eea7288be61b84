use vstd::prelude::*;

use crate::text::string_from_chars;

verus! {

/// Identifier of one terminal pane: the 128 bits of a UUID.
#[derive(Clone, Copy, Debug, PartialEq, Eq, Hash, Structural)]
pub struct PaneId {
    pub value: u128,
}

/// Identifier of one workspace: the 128 bits of a UUID.
#[derive(Clone, Copy, Debug, PartialEq, Eq, Hash, Structural)]
pub struct WorkspaceId {
    pub value: u128,
}

/// True when `bits` carry the version nibble of a random (version 4) UUID
/// and the RFC 4122 variant.
pub open spec fn is_random_uuid(bits: u128) -> bool {
    &&& (bits >> 76u128) & 0xfu128 == 4
    &&& (bits >> 62u128) & 0x3u128 == 2
}

/// Draws a fresh random UUID through `uuid::Uuid::new_v4` and returns its 128 bits.
/// The contract claims only what the `uuid` crate documents of every version 4 UUID:
/// its version nibble is 4 and its variant is the RFC 4122 one. The random bits are left free.
#[verifier::external_body]
fn random_uuid_bits() -> (bits: u128)
    ensures
        is_random_uuid(bits),
{
    uuid::Uuid::new_v4().as_u128()
}

impl PaneId {
    /// Creates a fresh, random pane identifier.
    pub fn new() -> (id: Self)
        ensures
            is_random_uuid(id.value),
    {
        PaneId { value: random_uuid_bits() }
    }

    /// Wraps the 128 bits of an existing UUID.
    pub fn from_u128(value: u128) -> (id: Self)
        ensures
            id.value == value,
    {
        PaneId { value }
    }

    /// The 128 bits of the identifier.
    pub fn as_u128(&self) -> (value: u128)
        ensures
            value == self.value,
    {
        self.value
    }
}

impl WorkspaceId {
    /// Creates a fresh, random workspace identifier.
    pub fn new() -> (id: Self)
        ensures
            is_random_uuid(id.value),
    {
        WorkspaceId { value: random_uuid_bits() }
    }

    /// Wraps the 128 bits of an existing UUID.
    pub fn from_u128(value: u128) -> (id: Self)
        ensures
            id.value == value,
    {
        WorkspaceId { value }
    }

    /// The 128 bits of the identifier.
    pub fn as_u128(&self) -> (value: u128)
        ensures
            value == self.value,
    {
        self.value
    }
}

/// A lowercase hexadecimal digit.
pub open spec fn hex_char(nibble: int) -> char {
    if nibble < 10 {
        (('0' as int) + nibble) as char
    } else {
        (('a' as int) + nibble - 10) as char
    }
}

/// Where the hyphenated form of a UUID has its hyphens.
pub open spec fn is_hyphen_position(i: int) -> bool {
    i == 8 || i == 13 || i == 18 || i == 23
}

/// Which hexadecimal digit (counted from the most significant) stands at position `i` of the
/// hyphenated form.
pub open spec fn digit_index(i: int) -> int {
    if i < 8 {
        i
    } else if i < 13 {
        i - 1
    } else if i < 18 {
        i - 2
    } else if i < 23 {
        i - 3
    } else {
        i - 4
    }
}

/// The `k`-th hexadecimal digit of the 128 bits, counted from the most significant.
pub open spec fn nibble_of(bits: u128, k: int) -> int {
    ((bits >> ((124 - 4 * k) as u128)) & 0xfu128) as int
}

/// The hyphenated lowercase text of a UUID, such as `67e55044-10b1-426f-9247-bb680e5fe0c8`.
pub open spec fn hyphenated(bits: u128) -> Seq<char> {
    Seq::new(
        36,
        |i: int|
            if is_hyphen_position(i) {
                '-'
            } else {
                hex_char(nibble_of(bits, digit_index(i)))
            },
    )
}

/// The hyphenated lowercase text of a UUID with these 128 bits.
pub fn uuid_text(bits: u128) -> (text: String)
    ensures
        text@ == hyphenated(bits),
{
    let mut out: Vec<char> = Vec::new();
    let mut position: usize = 0;
    let mut digit: u32 = 0;
    while position < 36
        invariant
            position <= 36,
            out@.len() == position,
            digit as int == (if position <= 8 {
                position as int
            } else if position <= 13 {
                position - 1
            } else if position <= 18 {
                position - 2
            } else if position <= 23 {
                position - 3
            } else {
                position - 4
            }),
            forall|i: int| 0 <= i < position ==> out@[i] == hyphenated(bits)[i],
        decreases 36 - position,
    {
        if position == 8 || position == 13 || position == 18 || position == 23 {
            out.push('-');
        } else {
            let shift: u32 = 124 - 4 * digit;
            let nibble: u8 = ((bits >> shift) & 0xf) as u8;
            proof {
                assert(((bits >> shift) & 0xfu128) <= 15) by (bit_vector);
                assert(nibble as int == nibble_of(bits, digit as int));
            }
            let c: char = if nibble < 10 {
                (48 + nibble) as char
            } else {
                (87 + nibble) as char
            };
            proof {
                assert(c == hex_char(nibble as int));
            }
            out.push(c);
            digit += 1;
        }
        position += 1;
    }
    proof {
        assert(out@ =~= hyphenated(bits));
    }
    string_from_chars(&out)
}

/// The 32-bit FNV-1a hash of bytes.
pub open spec fn fnv1a(bytes: Seq<u8>) -> u32
    decreases bytes.len(),
{
    if bytes.len() == 0 {
        2_166_136_261u32
    } else {
        vstd::wrapping::u32_specs::wrapping_mul(
            fnv1a(bytes.drop_last()) ^ (bytes.last() as u32),
            16_777_619u32,
        )
    }
}

impl WorkspaceId {
    /// The identifier's hyphenated text, as it is shown and stored.
    pub fn to_text(&self) -> (text: String)
        ensures
            text@ == hyphenated(self.value),
    {
        uuid_text(self.value)
    }
}

/// A stable 32-bit hash of a workspace: FNV-1a over the bytes of its identifier's text.
pub fn workspace_identity_hash(workspace_id: WorkspaceId) -> (hash: u32)
    ensures
        hash == fnv1a(vstd::utf8::encode_utf8(hyphenated(workspace_id.value))),
{
    let text = workspace_id.to_text();
    let bytes = text.as_str().as_bytes();
    let mut hash: u32 = 2_166_136_261;
    let mut index: usize = 0;
    while index < bytes.len()
        invariant
            index <= bytes@.len(),
            bytes@ == vstd::utf8::encode_utf8(hyphenated(workspace_id.value)),
            hash == fnv1a(bytes@.take(index as int)),
        decreases bytes@.len() - index,
    {
        proof {
            assert(bytes@.take(index + 1).drop_last() =~= bytes@.take(index as int));
        }
        hash = (hash ^ (bytes[index] as u32)).wrapping_mul(16_777_619);
        index += 1;
    }
    proof {
        assert(bytes@.take(index as int) =~= bytes@);
    }
    hash
}

} // verus!
