use vstd::prelude::*;

use crate::text::{hex_joined, push_char, push_hex_byte};
use vstd::string::StringSliceAdditionalSpecFns;
use vstd::utf8::{decode_utf8, valid_utf8};

verus! {

/// Largest payload, in bytes, that a GATT write hands on to the messaging screen.
pub const MAX_TX_PACKET_SIZE: usize = 32;

/// What was last heard from a nearby device.
#[derive(Debug, Clone)]
pub struct ContactData {
    /// The advertised name, if the device sent one.
    pub name: Option<String>,
    /// Received signal strength, in dBm.
    pub rssi: i8,
    /// When the report arrived, in timer ticks.
    pub seen_at: u64,
}

/// A device heard during a scan: its Bluetooth address (bytes as sent, least significant first)
/// and what was heard from it.
#[derive(Debug, Clone)]
pub struct Contact {
    pub addr: [u8; 6],
    pub data: ContactData,
}

/// A Bluetooth address as colon-separated upper-case hexadecimal bytes, in the order the bytes
/// are stored.
pub fn format_bd_addr(addr: &[u8; 6]) -> (r: String)
    ensures
        r@ == hex_joined(addr@),
{
    let mut s = String::new();
    let mut i: usize = 0;
    while i < 6
        invariant
            i <= 6,
            addr@.len() == 6,
            s@ == hex_joined(addr@.take(i as int)),
        decreases 6 - i,
    {
        let ghost before = s@;
        if i > 0 {
            push_char(&mut s, ':');
        }
        push_hex_byte(&mut s, addr[i]);
        proof {
            let t = addr@.take(i + 1);
            assert(t.drop_last() =~= addr@.take(i as int));
            assert(t.last() == addr@[i as int]);
            if i == 0 {
                assert(hex_joined(addr@.take(0)) =~= Seq::<char>::empty());
                assert(s@ =~= hex_joined(t));
            } else {
                assert(s@ =~= hex_joined(t));
            }
        }
        i = i + 1;
    }
    assert(addr@.take(6) =~= addr@);
    s
}

/// The capacity error of a `heapless` collection.
#[verifier::external_type_specification]
#[verifier::external_body]
pub struct ExCapacityError(heapless::CapacityError);

/// The bytes a GATT write hands on to the messaging screen, at most 32 of them.
#[verifier::external_body]
pub struct TxPacket {
    bytes: heapless::Vec<u8, 32>,
}

/// The bytes of a packet.
pub uninterp spec fn tx_packet_contents(p: TxPacket) -> Seq<u8>;

impl TxPacket {
    /// An empty packet; calls `heapless::Vec::new`.
    #[verifier::external_body]
    pub(crate) fn empty() -> (p: TxPacket)
        ensures
            tx_packet_contents(p) == Seq::<u8>::empty(),
    {
        TxPacket { bytes: heapless::Vec::new() }
    }

    /// Appends bytes when they all fit, else changes nothing; calls
    /// `heapless::Vec::extend_from_slice`.
    #[verifier::external_body]
    pub(crate) fn extend_from_slice(&mut self, data: &[u8]) -> (r: Result<(), heapless::CapacityError>)
        ensures
            tx_packet_contents(*old(self)).len() + data@.len() <= MAX_TX_PACKET_SIZE ==> r is Ok,
            tx_packet_contents(*old(self)).len() + data@.len() <= MAX_TX_PACKET_SIZE
                ==> tx_packet_contents(*final(self)) == tx_packet_contents(*old(self)) + data@,
            tx_packet_contents(*old(self)).len() + data@.len() > MAX_TX_PACKET_SIZE ==> r is Err,
            tx_packet_contents(*old(self)).len() + data@.len() > MAX_TX_PACKET_SIZE
                ==> tx_packet_contents(*final(self)) == tx_packet_contents(*old(self)),
    {
        self.bytes.extend_from_slice(data)
    }

    /// Number of bytes; calls `heapless::Vec::len`, at most 32.
    #[verifier::external_body]
    pub(crate) fn count(&self) -> (r: usize)
        ensures
            r == tx_packet_contents(*self).len(),
            r <= MAX_TX_PACKET_SIZE,
    {
        self.bytes.len()
    }

    /// The byte at a position; indexes the `heapless::Vec`.
    #[verifier::external_body]
    pub(crate) fn at(&self, i: usize) -> (r: u8)
        requires
            i < tx_packet_contents(*self).len(),
        ensures
            r == tx_packet_contents(*self)[i as int],
    {
        self.bytes[i]
    }

    /// Number of bytes in the packet.
    pub fn len(&self) -> (r: usize)
        ensures
            r == tx_packet_contents(*self).len(),
            r <= MAX_TX_PACKET_SIZE,
    {
        self.count()
    }

    /// The byte at a position.
    pub fn get(&self, i: usize) -> (r: u8)
        requires
            i < tx_packet_contents(*self).len(),
        ensures
            r == tx_packet_contents(*self)[i as int],
    {
        self.at(i)
    }
}

/// The packet made of the data of a GATT write: its first 32 bytes.
pub fn tx_packet_from_write(data: &[u8]) -> (p: TxPacket)
    ensures
        tx_packet_contents(p) == data@.take(
            if data@.len() < MAX_TX_PACKET_SIZE {
                data@.len() as int
            } else {
                MAX_TX_PACKET_SIZE as int
            },
        ),
{
    let len = if data.len() < MAX_TX_PACKET_SIZE {
        data.len()
    } else {
        MAX_TX_PACKET_SIZE
    };
    let mut packet = TxPacket::empty();
    let part = vstd::slice::slice_subrange(data, 0, len);
    match packet.extend_from_slice(part) {
        Ok(()) => {},
        Err(_) => {},
    }
    assert(part@ =~= data@.take(len as int));
    packet
}

/// Advertising flag: LE general discoverable mode.
pub const LE_GENERAL_DISCOVERABLE: u8 = 0b00000010;

/// Advertising flag: BR/EDR not supported.
pub const BR_EDR_NOT_SUPPORTED: u8 = 0b00000100;

/// Size of the advertising data buffer.
pub const ADV_DATA_SIZE: usize = 31;

/// The name the badge advertises.
pub const NAME: &'static str = "Ariel OS CDC badge";

/// An error of the BLE host stack.
#[verifier::external_type_specification]
#[verifier::external_body]
pub struct ExHostError(trouble_host::Error);

/// Advertising data holding a flags structure and a complete local name, zero-padded to 31
/// bytes.
pub open spec fn flags_and_name(flags: u8, name: Seq<u8>) -> Seq<u8> {
    seq![2u8, 1u8, flags, (name.len() + 1) as u8, 9u8] + name + Seq::new(
        (ADV_DATA_SIZE - 5 - name.len()) as nat,
        |i: int| 0u8,
    )
}

/// Encodes a flags structure and a complete local name into 31 bytes; calls
/// `AdStructure::encode_slice`, which fails when the structures do not fit.
#[verifier::external_body]
fn encode_flags_and_name(flags: u8, name: &[u8]) -> (r: Result<[u8; 31], trouble_host::Error>)
    ensures
        r is Ok <==> name@.len() + 5 <= ADV_DATA_SIZE,
        r matches Ok(buf) ==> buf@ == flags_and_name(flags, name@),
{
    let mut buf = [0u8; 31];
    match trouble_host::advertise::AdStructure::encode_slice(
        &[
            trouble_host::advertise::AdStructure::Flags(flags),
            trouble_host::advertise::AdStructure::CompleteLocalName(name),
        ],
        &mut buf[..],
    ) {
        Ok(_) => Ok(buf),
        Err(e) => Err(e.into()),
    }
}

/// Why advertising data could not be built.
#[derive(Debug, Clone, Copy, PartialEq, Eq, Structural)]
pub enum AdvertiseError {
    /// The name does not fit in the advertising data.
    InsufficientSpace,
}

/// The advertising data of the badge: discoverable, BR/EDR not supported, and its complete
/// name; fails when the name is longer than 26 bytes.
pub fn advertising_data(name: &str) -> (r: Result<[u8; 31], AdvertiseError>)
    ensures
        r is Ok <==> name.spec_bytes().len() + 5 <= ADV_DATA_SIZE,
        r matches Ok(buf) ==> buf@ == flags_and_name(
            LE_GENERAL_DISCOVERABLE | BR_EDR_NOT_SUPPORTED,
            name.spec_bytes(),
        ),
        r matches Err(e) ==> e == AdvertiseError::InsufficientSpace,
{
    match encode_flags_and_name(LE_GENERAL_DISCOVERABLE | BR_EDR_NOT_SUPPORTED, name.as_bytes()) {
        Ok(buf) => Ok(buf),
        Err(_) => Err(AdvertiseError::InsufficientSpace),
    }
}

/// One structure of advertising data, as far as names go.
pub enum AdField {
    ShortenedLocalName(Vec<u8>),
    CompleteLocalName(Vec<u8>),
    /// Any other structure, or one that did not decode.
    Other,
}

/// An advertising structure's bytes, as far as names go.
pub enum AdFieldView {
    ShortenedLocalName(Seq<u8>),
    CompleteLocalName(Seq<u8>),
    Other,
}

impl View for AdField {
    type V = AdFieldView;

    open spec fn view(&self) -> AdFieldView {
        match self {
            AdField::ShortenedLocalName(b) => AdFieldView::ShortenedLocalName(b@),
            AdField::CompleteLocalName(b) => AdFieldView::CompleteLocalName(b@),
            AdField::Other => AdFieldView::Other,
        }
    }
}

/// The structures of advertising data: each is a length byte `len`, a type byte and `len - 1`
/// data bytes; type 8 is a shortened and type 9 a complete local name. A length below 2 is
/// skipped as one bad byte; a truncated structure yields one bad field, and decoding goes on
/// after its type byte.
pub open spec fn ad_fields(data: Seq<u8>) -> Seq<AdFieldView>
    decreases data.len(),
{
    if data.len() == 0 {
        Seq::empty()
    } else if data[0] < 2 {
        seq![AdFieldView::Other] + ad_fields(data.drop_first())
    } else if data.len() < 2 {
        seq![AdFieldView::Other]
    } else if data.len() - 2 < data[0] - 1 {
        seq![AdFieldView::Other] + ad_fields(data.subrange(2, data.len() as int))
    } else {
        let payload = data.subrange(2, data[0] + 1);
        let field = if data[1] == 8 {
            AdFieldView::ShortenedLocalName(payload)
        } else if data[1] == 9 {
            AdFieldView::CompleteLocalName(payload)
        } else {
            AdFieldView::Other
        };
        seq![field] + ad_fields(data.subrange(data[0] + 1, data.len() as int))
    }
}

/// Decodes advertising data into its structures; calls `AdStructure::decode`, keeping name
/// structures and folding every other structure and every decoding error into `Other`.
#[verifier::external_body]
fn decode_ad_fields(data: &[u8]) -> (r: Vec<AdField>)
    ensures
        r@.map_values(|f: AdField| f@) == ad_fields(data@),
{
    trouble_host::advertise::AdStructure::decode(data).map(
        |item| match item {
            Ok(trouble_host::advertise::AdStructure::ShortenedLocalName(n)) => AdField::ShortenedLocalName(n.to_vec()),
            Ok(trouble_host::advertise::AdStructure::CompleteLocalName(n)) => AdField::CompleteLocalName(n.to_vec()),
            _ => AdField::Other,
        },
    ).collect()
}

/// The text of UTF-8 bytes, if they are valid UTF-8.
pub open spec fn utf8_text(bytes: Seq<u8>) -> Option<Seq<char>> {
    if valid_utf8(bytes) {
        Some(decode_utf8(bytes))
    } else {
        None
    }
}

/// Reads bytes as UTF-8; calls `core::str::from_utf8`, which accepts exactly valid UTF-8.
#[verifier::external_body]
pub(crate) fn utf8_str(bytes: &[u8]) -> (r: Option<&str>)
    ensures
        r is Some <==> valid_utf8(bytes@),
        r matches Some(t) ==> t@ == decode_utf8(bytes@),
{
    core::str::from_utf8(bytes).ok()
}

/// The name found in advertising structures, given the shortened name read so far: the first
/// complete name when it is valid UTF-8, else the last shortened name before it (a shortened
/// name that is not valid UTF-8 counts as none).
pub open spec fn name_from_fields(fields: Seq<AdFieldView>, short: Option<Seq<char>>) -> Option<
    Seq<char>,
>
    decreases fields.len(),
{
    if fields.len() == 0 {
        short
    } else {
        match fields[0] {
            AdFieldView::ShortenedLocalName(b) => name_from_fields(fields.drop_first(), utf8_text(b)),
            AdFieldView::CompleteLocalName(b) => match utf8_text(b) {
                Some(n) => Some(n),
                None => short,
            },
            AdFieldView::Other => name_from_fields(fields.drop_first(), short),
        }
    }
}

/// The name a device advertises in its advertising data.
pub open spec fn advertised_name_of(data: Seq<u8>) -> Option<Seq<char>> {
    name_from_fields(ad_fields(data), None)
}

/// The text of an optional string slice.
pub open spec fn opt_text(o: Option<&str>) -> Option<Seq<char>> {
    match o {
        Some(t) => Some(t@),
        None => None,
    }
}

/// The name a device advertises: its complete local name, or else its shortened one.
pub fn advertised_name(data: &[u8]) -> (r: Option<String>)
    ensures
        match r {
            Some(n) => advertised_name_of(data@) == Some(n@),
            None => advertised_name_of(data@) is None,
        },
{
    let fields = decode_ad_fields(data);
    let ghost fv = fields@.map_values(|f: AdField| f@);
    let mut decoded: Option<&str> = None;
    let mut decoded_short: Option<&str> = None;
    let mut i: usize = 0;
    assert(fv.subrange(0, fv.len() as int) =~= fv);
    while i < fields.len()
        invariant_except_break
            i <= fields@.len(),
            fv == fields@.map_values(|f: AdField| f@),
            fv == ad_fields(data@),
            decoded is None,
            name_from_fields(fv.subrange(i as int, fv.len() as int), opt_text(decoded_short))
                == advertised_name_of(data@),
        ensures
            match decoded {
                Some(t) => Some(t@) == advertised_name_of(data@),
                None => opt_text(decoded_short) == advertised_name_of(data@),
            },
        decreases fields@.len() - i,
    {
        let ghost rest = fv.subrange(i as int, fv.len() as int);
        assert(rest[0] == fields@[i as int]@);
        assert(rest.drop_first() =~= fv.subrange(i + 1, fv.len() as int));
        match &fields[i] {
            AdField::ShortenedLocalName(b) => {
                decoded_short = utf8_str(b.as_slice());
            },
            AdField::CompleteLocalName(b) => {
                decoded = utf8_str(b.as_slice());
                break;
            },
            AdField::Other => {},
        }
        i = i + 1;
    }
    match decoded {
        Some(t) => Some(t.to_owned()),
        None => match decoded_short {
            Some(t) => Some(t.to_owned()),
            None => None,
        },
    }
}

/// The contact made of an advertising report heard at `seen_at`.
pub fn contact_from_report(addr: [u8; 6], rssi: i8, data: &[u8], seen_at: u64) -> (c: Contact)
    ensures
        c.addr == addr,
        c.data.rssi == rssi,
        c.data.seen_at == seen_at,
        match c.data.name {
            Some(n) => advertised_name_of(data@) == Some(n@),
            None => advertised_name_of(data@) is None,
        },
{
    Contact { addr, data: ContactData { name: advertised_name(data), rssi, seen_at } }
}

} // verus!
