//! The identity a client presents when it opens a session, and the init
//! command request that carries it.

use crate::codec::{encode, spec_encode, HEADER_LENGTH, TAG_INIT_COMMAND_REQUEST};
use vstd::prelude::*;
use vstd::string::StrSliceExecFns;

verus! {

/// Bytes in the identifier that names a client to the device.
pub const GUID_LENGTH: usize = 16;

/// Width of the friendly-name field, in UTF-16 code units. The last unit is
/// always the terminator.
pub const NAME_FIELD_UNITS: usize = 27;

/// Length of every init command request: header, identifier, name field.
pub const INIT_REQUEST_LENGTH: usize = HEADER_LENGTH + GUID_LENGTH + 2 * NAME_FIELD_UNITS;

/// The UTF-16 code units of one character.
pub open spec fn utf16_of_char(c: char) -> Seq<u16> {
    let scalar = c as u32;
    if scalar < 0x1_0000 {
        seq![scalar as u16]
    } else {
        seq![
            (0xD800 + (scalar - 0x1_0000) / 0x400) as u16,
            (0xDC00 + (scalar - 0x1_0000) % 0x400) as u16,
        ]
    }
}

/// The UTF-16 code units of a text.
pub open spec fn utf16(text: Seq<char>) -> Seq<u16>
    decreases text.len(),
{
    if text.len() == 0 {
        Seq::empty()
    } else {
        utf16(text.drop_last()) + utf16_of_char(text.last())
    }
}

/// Code unit `k` of a field of `units` units that holds `text`: the text's
/// own unit while the text lasts and the terminator's place is not reached,
/// zero from there on.
pub open spec fn utf16_field_unit(text: Seq<char>, units: nat, k: int) -> u16 {
    if 0 <= k < utf16(text).len() && k + 1 < units {
        utf16(text)[k]
    } else {
        0u16
    }
}

/// A text as a fixed-width UTF-16LE field of `units` code units: truncated
/// where it would reach the last unit, zero-filled where it ends sooner.
/// Each unit is stored low byte first. The cut falls between code units, so
/// a character that takes two may keep only its first.
pub open spec fn utf16_field(text: Seq<char>, units: nat) -> Seq<u8> {
    Seq::new(
        2 * units,
        |i: int|
            if i % 2 == 0 {
                (utf16_field_unit(text, units, i / 2) % 0x100) as u8
            } else {
                (utf16_field_unit(text, units, i / 2) / 0x100) as u8
            },
    )
}

/// The field has one width whatever the text. Unit `k` of it is unit `k` of
/// the text where the text reaches that far and `k` is not the last unit;
/// it is zero where the text has ended, and in the last unit always. So a
/// text too long for the field is cut, never spilled, and a shorter one is
/// followed by zeros.
pub proof fn lemma_utf16_field_truncates_and_pads(text: Seq<char>, units: nat, k: int)
    requires
        0 <= k < units,
    ensures
        utf16_field(text, units).len() == 2 * units,
        k < utf16(text).len() && k + 1 < units ==> utf16_field(text, units)[2 * k] + 0x100
            * utf16_field(text, units)[2 * k + 1] == utf16(text)[k],
        k >= utf16(text).len() || k + 1 == units ==> utf16_field(text, units)[2 * k] == 0
            && utf16_field(text, units)[2 * k + 1] == 0,
{
    assert((2 * k) / 2 == k && (2 * k) % 2 == 0);
    assert((2 * k + 1) / 2 == k && (2 * k + 1) % 2 == 1);
}

/// The encoding of a text begins with the encoding of each of its prefixes.
pub proof fn lemma_utf16_prefix(text: Seq<char>, n: int)
    requires
        0 <= n <= text.len(),
    ensures
        utf16(text.take(n)).len() <= utf16(text).len(),
        utf16(text.take(n)) == utf16(text).take(utf16(text.take(n)).len() as int),
    decreases text.len() - n,
{
    if n == text.len() {
        assert(text.take(n) =~= text);
    } else {
        lemma_utf16_prefix(text, n + 1);
        let longer = text.take(n + 1);
        assert(longer.drop_last() =~= text.take(n));
        assert(longer.last() == text[n]);
        assert(utf16(longer) == utf16(text.take(n)) + utf16_of_char(text[n]));
        assert(utf16(text.take(n)) =~= utf16(text).take(utf16(text.take(n)).len() as int));
    }
}

/// Encodes `text` as a UTF-16LE field of exactly `units` code units. A text
/// too long for the field is truncated so that the last unit stays zero; a
/// shorter one is followed by zeros.
pub fn encode_utf16_field(text: &str, units: usize) -> (field: Vec<u8>)
    requires
        2 * units <= usize::MAX,
    ensures
        field@ == utf16_field(text@, units as nat),
        field@.len() == 2 * units,
{
    let mut field: Vec<u8> = Vec::with_capacity(2 * units);
    let chars: usize = text.unicode_len();
    let mut i: usize = 0;
    let mut k: usize = 0;
    proof {
        assert(text@.take(0) =~= Seq::<char>::empty());
        lemma_utf16_prefix(text@, 0);
    }
    while i < chars && k + 1 < units
        invariant
            chars == text@.len(),
            2 * units <= usize::MAX,
            i <= chars,
            k < units || k == 0,
            k <= utf16(text@.take(i as int)).len() <= utf16(text@).len(),
            k == utf16(text@.take(i as int)).len() || k + 1 == units,
            field@.len() == 2 * k,
            forall|j: int|
                0 <= j < 2 * k ==> field@[j] == #[trigger] utf16_field(text@, units as nat)[j],
        decreases chars - i,
    {
        let c: char = text.get_char(i);
        let scalar: u32 = c as u32;
        proof {
            lemma_utf16_prefix(text@, i as int);
            lemma_utf16_prefix(text@, i + 1);
            let longer = text@.take(i + 1);
            assert(longer.drop_last() =~= text@.take(i as int));
            assert(longer.last() == c);
            assert(utf16(longer) == utf16(text@.take(i as int)) + utf16_of_char(c));
            assert(forall|j: int|
                0 <= j < utf16(longer).len() ==> utf16(longer)[j] == #[trigger] utf16(text@)[j]);
        }
        if scalar < 0x1_0000 {
            let unit: u16 = scalar as u16;
            field.push((unit % 0x100) as u8);
            field.push((unit / 0x100) as u8);
            k = k + 1;
        } else {
            let high: u16 = (0xD800 + (scalar - 0x1_0000) / 0x400) as u16;
            let low: u16 = (0xDC00 + (scalar - 0x1_0000) % 0x400) as u16;
            field.push((high % 0x100) as u8);
            field.push((high / 0x100) as u8);
            k = k + 1;
            if k + 1 < units {
                field.push((low % 0x100) as u8);
                field.push((low / 0x100) as u8);
                k = k + 1;
            }
        }
        i = i + 1;
    }
    proof {
        if i == chars {
            assert(text@.take(i as int) =~= text@);
        }
    }
    while k < units
        invariant
            2 * units <= usize::MAX,
            k <= units,
            k >= utf16(text@).len() || k + 1 >= units,
            field@.len() == 2 * k,
            forall|j: int|
                0 <= j < 2 * k ==> field@[j] == #[trigger] utf16_field(text@, units as nat)[j],
        decreases units - k,
    {
        field.push(0u8);
        field.push(0u8);
        k = k + 1;
    }
    assert(field@ =~= utf16_field(text@, units as nat));
    field
}

/// What a client tells the device about itself in the init command request.
#[derive(Debug, PartialEq)]
pub struct PTPHandshake {
    guid: [u8; 16],
    name: String,
}

/// An identity as a mathematical value.
#[verifier::ext_equal]
pub struct IdentityView {
    pub guid: Seq<u8>,
    pub name: Seq<char>,
}

impl View for PTPHandshake {
    type V = IdentityView;

    closed spec fn view(&self) -> IdentityView {
        IdentityView { guid: self.guid@, name: self.name@ }
    }
}

/// The identifier under which this client is known to devices.
pub open spec fn client_guid() -> Seq<u8> {
    seq![
        0xf2u8, 0xe4u8, 0x53u8, 0x8fu8, 0xadu8, 0xa5u8, 0x48u8, 0x5du8, 0x87u8, 0xb2u8, 0x7fu8,
        0x0bu8, 0xd3u8, 0xd5u8, 0xdeu8, 0xd0u8,
    ]
}

/// The bytes of the init command request for an identity: the frame of type
/// `InitCommandRequest` whose payload is the identifier followed by the name
/// field.
pub open spec fn init_request(identity: IdentityView) -> Seq<u8> {
    spec_encode(
        TAG_INIT_COMMAND_REQUEST,
        identity.guid + utf16_field(identity.name, NAME_FIELD_UNITS as nat),
    )
}

/// Whatever the name, the init command request has one length.
pub proof fn lemma_init_request_length(identity: IdentityView)
    requires
        identity.guid.len() == GUID_LENGTH,
    ensures
        init_request(identity).len() == INIT_REQUEST_LENGTH,
{
}

impl PTPHandshake {
    /// The identity of this client under the friendly name `name`.
    pub fn new(name: &str) -> (identity: Self)
        ensures
            identity@.guid == client_guid(),
            identity@.name == name@,
    {
        let guid: [u8; 16] = [
            0xf2, 0xe4, 0x53, 0x8f, 0xad, 0xa5, 0x48, 0x5d, 0x87, 0xb2, 0x7f, 0x0b, 0xd3, 0xd5,
            0xde, 0xd0,
        ];
        assert(guid@ =~= client_guid());
        PTPHandshake { guid, name: name.to_owned() }
    }

    /// An identity with an identifier of the caller's own.
    pub fn with_guid(guid: [u8; 16], name: &str) -> (identity: Self)
        ensures
            identity@.guid == guid@,
            identity@.name == name@,
    {
        PTPHandshake { guid, name: name.to_owned() }
    }

    /// The init command request that presents this identity, ready for the
    /// wire.
    pub fn to_u8(&self) -> (frame: Vec<u8>)
        ensures
            frame@ == init_request(self@),
            frame@.len() == INIT_REQUEST_LENGTH,
    {
        let mut payload: Vec<u8> = Vec::with_capacity(INIT_REQUEST_LENGTH - HEADER_LENGTH);
        payload.extend_from_slice(self.guid.as_slice());
        let field = encode_utf16_field(self.name.as_str(), NAME_FIELD_UNITS);
        payload.extend_from_slice(field.as_slice());
        assert(payload@ =~= self@.guid + utf16_field(self@.name, NAME_FIELD_UNITS as nat));
        encode(TAG_INIT_COMMAND_REQUEST, payload.as_slice())
    }
}

} // verus!
