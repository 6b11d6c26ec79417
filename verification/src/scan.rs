//! Looking for one Bluetooth LE device: the target's address, what each
//! event of a scan tells, when to stop, and how a found device's
//! characteristics are reported.
//!
//! The scan itself (adapter, event channel, clock, connection) is run by the
//! program around this library, which hands each event over.
use vstd::prelude::*;

use crate::utils::push_char;

verus! {

/// How long the scan runs, in milliseconds.
pub const SEARCH_TIME_MS: u128 = 1500;

/// The pause between two polls of the event channel, in milliseconds.
pub const POLL_INTERVAL_MS: u64 = 100;

/// The value of a hexadecimal digit, either case.
pub open spec fn hex_digit_value(c: char) -> Option<int> {
    if '0' <= c && c <= '9' {
        Some(c as int - 48)
    } else if 'a' <= c && c <= 'f' {
        Some(c as int - 87)
    } else if 'A' <= c && c <= 'F' {
        Some(c as int - 55)
    } else {
        None
    }
}

/// The value of a run of hexadecimal digits (any number of them).
pub open spec fn hex_digits_value(s: Seq<char>) -> Option<int>
    decreases s.len(),
{
    if s.len() == 0 {
        Some(0)
    } else {
        match (hex_digits_value(s.drop_last()), hex_digit_value(s.last())) {
            (Some(high), Some(d)) => Some(high * 16 + d),
            _ => None,
        }
    }
}

/// What `u8::from_str_radix(part, 16)` gives: an optional `+`, then at least
/// one hexadecimal digit, worth less than 256.
pub open spec fn hex_byte(part: Seq<char>) -> Option<u8> {
    let digits = if part.len() > 0 && part[0] == '+' {
        part.drop_first()
    } else {
        part
    };
    if digits.len() == 0 {
        None
    } else {
        match hex_digits_value(digits) {
            Some(v) => if v < 256 {
                Some(v as u8)
            } else {
                None
            },
            None => None,
        }
    }
}

/// The parts of a text between its colons, as `str::split(':')` gives them
/// (empty parts included; the empty text is one empty part).
pub open spec fn colon_parts(s: Seq<char>) -> Seq<Seq<char>>
    decreases s.len(),
{
    if s.len() == 0 {
        seq![Seq::<char>::empty()]
    } else {
        let rest = colon_parts(s.drop_first());
        if s[0] == ':' {
            seq![Seq::<char>::empty()] + rest
        } else {
            rest.update(0, seq![s[0]] + rest[0])
        }
    }
}

/// The address btleplug reads in a text: exactly six colon-separated
/// hexadecimal bytes, the first written being the most significant; `None`
/// where the text is not of that form.
pub open spec fn bd_addr_of_text(text: Seq<char>) -> Option<Seq<u8>> {
    let parts = colon_parts(text);
    if parts.len() == 6 && (forall|i: int| 0 <= i < 6 ==> (#[trigger] hex_byte(parts[i])) is Some) {
        Some(Seq::new(6, |i: int| hex_byte(parts[5 - i]).unwrap()))
    } else {
        None
    }
}

/// Calls `<btleplug::api::BDAddr as FromStr>::from_str`. Its source splits
/// the text at every `:`, reads each part with `u8::from_str_radix(part, 16)`
/// (refusing the text at the first part that fails), refuses any number of
/// parts but six, and stores the bytes in reverse order.
#[verifier::external_body]
fn bd_addr_from_str(text: &str) -> (r: Option<[u8; 6]>)
    ensures
        match r {
            Some(a) => bd_addr_of_text(text@) == Some(a@),
            None => bd_addr_of_text(text@) is None,
        },
{
    text.parse::<btleplug::api::BDAddr>().ok().map(|a| a.address)
}

/// An upper-case hexadecimal digit.
pub open spec fn hex_digit_upper(d: int) -> char {
    if d < 10 {
        (48 + d) as char
    } else {
        (55 + d) as char
    }
}

/// A lower-case hexadecimal digit.
pub open spec fn hex_digit_lower(d: int) -> char {
    if d < 10 {
        (48 + d) as char
    } else {
        (87 + d) as char
    }
}

/// A byte as two upper-case hexadecimal digits.
pub open spec fn hex_upper(b: u8) -> Seq<char> {
    seq![hex_digit_upper((b / 16) as int), hex_digit_upper((b % 16) as int)]
}

/// A byte as two lower-case hexadecimal digits.
pub open spec fn hex_lower(b: u8) -> Seq<char> {
    seq![hex_digit_lower((b / 16) as int), hex_digit_lower((b % 16) as int)]
}

/// The text of an address: its bytes, most significant first, in
/// upper-case hexadecimal, separated by colons.
pub open spec fn address_text(a: Seq<u8>) -> Seq<char> {
    hex_upper(a[5]) + seq![':'] + hex_upper(a[4]) + seq![':'] + hex_upper(a[3]) + seq![':']
        + hex_upper(a[2]) + seq![':'] + hex_upper(a[1]) + seq![':'] + hex_upper(a[0])
}

/// Calls btleplug's `Display` for `BDAddr`, whose source writes the bytes
/// from the last to the first as `{:02X}`, separated by colons.
#[verifier::external_body]
fn bd_addr_to_string(octets: [u8; 6]) -> (s: String)
    ensures
        s@ == address_text(octets@),
{
    btleplug::api::BDAddr { address: octets }.to_string()
}

/// A Bluetooth device address, least significant byte first.
#[derive(Debug, Clone, Copy)]
pub struct Address {
    pub octets: [u8; 6],
}

impl Address {
    /// The address written in `text` ("00:1B:10:67:C8:AF"), as btleplug
    /// reads it.
    pub fn parse(text: &str) -> (a: Option<Address>)
        ensures
            match a {
                Some(addr) => bd_addr_of_text(text@) == Some(addr.octets@),
                None => bd_addr_of_text(text@) is None,
            },
    {
        match bd_addr_from_str(text) {
            Some(octets) => Some(Address { octets }),
            None => None,
        }
    }

    /// Whether two addresses are the same.
    pub fn same(&self, other: &Address) -> (b: bool)
        ensures
            b == (self.octets@ == other.octets@),
    {
        let mut i: usize = 0;
        while i < 6
            invariant
                i <= 6,
                forall|j: int| 0 <= j < i ==> self.octets@[j] == other.octets@[j],
            decreases 6 - i,
        {
            if self.octets[i] != other.octets[i] {
                return false;
            }
            i = i + 1;
        }
        proof {
            assert(self.octets@ =~= other.octets@);
        }
        true
    }

    /// The address as text, most significant byte first.
    pub fn to_text(&self) -> (s: String)
        ensures
            s@ == address_text(self.octets@),
    {
        bd_addr_to_string(self.octets)
    }
}

/// The kinds of event that a scan reports about a device.
#[derive(Debug, Clone, Copy, PartialEq, Eq, Structural)]
pub enum ScanEventKind {
    Discovered,
    Lost,
    Updated,
    Connected,
    Disconnected,
}

impl ScanEventKind {
    /// The words that announce an event of this kind.
    pub open spec fn label(self) -> Seq<char> {
        match self {
            ScanEventKind::Discovered => "Device discovered : "@,
            ScanEventKind::Lost => "Device lost : "@,
            ScanEventKind::Updated => "Device updated : "@,
            ScanEventKind::Connected => "Device connected : "@,
            ScanEventKind::Disconnected => "Device disconnected : "@,
        }
    }
}

/// An event of a scan: what happened, and to which device.
#[derive(Debug, Clone, Copy)]
pub struct ScanEvent {
    pub kind: ScanEventKind,
    pub address: Address,
}

/// The line that reports an event.
pub open spec fn event_text(ev: ScanEvent) -> Seq<char> {
    ev.kind.label() + address_text(ev.address.octets@)
}

/// Where a scan for one device stands.
pub struct ScanState {
    /// The address looked for.
    pub target: Seq<u8>,
    /// Whether it has been discovered.
    pub found: bool,
}

impl ScanState {
    /// The state after an event: the target is found once a discovery of
    /// its address is reported.
    pub open spec fn observed(self, ev: ScanEvent) -> ScanState {
        ScanState {
            found: self.found || (ev.kind == ScanEventKind::Discovered && ev.address.octets@
                == self.target),
            ..self
        }
    }

    /// The state after a run of events.
    pub open spec fn observed_all(self, evs: Seq<ScanEvent>) -> ScanState
        decreases evs.len(),
    {
        if evs.len() == 0 {
            self
        } else {
            self.observed_all(evs.drop_last()).observed(evs.last())
        }
    }
}

/// A scan for one device.
pub struct Scan {
    target: Address,
    found: bool,
}

impl View for Scan {
    type V = ScanState;

    closed spec fn view(&self) -> ScanState {
        ScanState { target: self.target.octets@, found: self.found }
    }
}

impl Scan {
    /// A scan for `target`, which has not been found yet.
    pub fn new(target: Address) -> (s: Scan)
        ensures
            s@ == (ScanState { target: target.octets@, found: false }),
    {
        Scan { target, found: false }
    }

    /// Takes in an event, and gives the line that reports it.
    pub fn observe(&mut self, ev: &ScanEvent) -> (line: String)
        ensures
            final(self)@ == old(self)@.observed(*ev),
            line@ == event_text(*ev),
    {
        let mut line = match ev.kind {
            ScanEventKind::Discovered => String::from_str("Device discovered : "),
            ScanEventKind::Lost => String::from_str("Device lost : "),
            ScanEventKind::Updated => String::from_str("Device updated : "),
            ScanEventKind::Connected => String::from_str("Device connected : "),
            ScanEventKind::Disconnected => String::from_str("Device disconnected : "),
        };
        let text = ev.address.to_text();
        line.append(text.as_str());
        let is_discovery = match ev.kind {
            ScanEventKind::Discovered => true,
            _ => false,
        };
        if is_discovery && ev.address.same(&self.target) {
            self.found = true;
        }
        line
    }

    /// Whether the target has been discovered.
    pub fn found(&self) -> (b: bool)
        ensures
            b == self@.found,
    {
        self.found
    }

    /// Whether the scan goes on after `elapsed_ms` milliseconds.
    pub fn keep_scanning(elapsed_ms: u128) -> (b: bool)
        ensures
            b == (elapsed_ms < SEARCH_TIME_MS),
    {
        elapsed_ms < SEARCH_TIME_MS
    }
}

/// A scan finds its target exactly when one of the events it takes in is a
/// discovery of the target's address; the target itself never changes.
pub proof fn law_scan_finds_iff_discovered(st: ScanState, evs: Seq<ScanEvent>)
    ensures
        st.observed_all(evs).target == st.target,
        st.observed_all(evs).found == (st.found || exists|i: int|
            0 <= i < evs.len() && evs[i].kind == ScanEventKind::Discovered && evs[i].address.octets@
                == st.target),
    decreases evs.len(),
{
    if evs.len() > 0 {
        let init = evs.drop_last();
        law_scan_finds_iff_discovered(st, init);
        let last = evs.len() - 1;
        if st.observed_all(evs).found && !st.found {
            if !(evs[last].kind == ScanEventKind::Discovered && evs[last].address.octets@
                == st.target) {
                let i = choose|i: int|
                    0 <= i < init.len() && init[i].kind == ScanEventKind::Discovered
                        && init[i].address.octets@ == st.target;
                assert(evs[i] == init[i]);
            }
        }
        if exists|i: int|
            0 <= i < evs.len() && evs[i].kind == ScanEventKind::Discovered
                && evs[i].address.octets@ == st.target {
            let i = choose|i: int|
                0 <= i < evs.len() && evs[i].kind == ScanEventKind::Discovered
                    && evs[i].address.octets@ == st.target;
            if i < last {
                assert(init[i] == evs[i]);
            }
        }
    }
}

/// Calls `btleplug::api::CharPropFlags::READ.bits()`; btleplug's source
/// declares `READ = 0x02`.
#[verifier::external_body]
fn read_property_bit() -> (b: u8)
    ensures
        b == 0x02,
{
    btleplug::api::CharPropFlags::READ.bits()
}

/// Calls `btleplug::api::CharPropFlags::WRITE.bits()`; btleplug's source
/// declares `WRITE = 0x08`.
#[verifier::external_body]
fn write_property_bit() -> (b: u8)
    ensures
        b == 0x08,
{
    btleplug::api::CharPropFlags::WRITE.bits()
}

/// Whether characteristic properties allow reading.
pub open spec fn readable(properties: u8) -> bool {
    properties & 0x02 == 0x02
}

/// Whether characteristic properties allow writing.
pub open spec fn writable(properties: u8) -> bool {
    properties & 0x08 == 0x08
}

/// Whether a characteristic with these properties can be read.
pub fn can_read(properties: u8) -> (b: bool)
    ensures
        b == readable(properties),
{
    let read = read_property_bit();
    properties & read == read
}

/// The access column of a characteristic: `r` or `-`, then `w` or `-`.
pub fn access_flags(properties: u8) -> (s: String)
    ensures
        s@ == seq![
            if readable(properties) {
                'r'
            } else {
                '-'
            },
            if writable(properties) {
                'w'
            } else {
                '-'
            },
        ],
{
    let read = read_property_bit();
    let write = write_property_bit();
    let mut s = String::new();
    if properties & read == read {
        push_char(&mut s, 'r');
    } else {
        push_char(&mut s, '-');
    }
    if properties & write == write {
        push_char(&mut s, 'w');
    } else {
        push_char(&mut s, '-');
    }
    proof {
        assert(s@ =~= seq![
            if readable(properties) {
                'r'
            } else {
                '-'
            },
            if writable(properties) {
                'w'
            } else {
                '-'
            },
        ]);
    }
    s
}

/// Bytes as a space before each, then two lower-case hexadecimal digits.
pub open spec fn hex_dump_text(bytes: Seq<u8>) -> Seq<char>
    decreases bytes.len(),
{
    if bytes.len() == 0 {
        seq![]
    } else {
        hex_dump_text(bytes.drop_last()) + seq![' '] + hex_lower(bytes.last())
    }
}

fn hex_char_lower(d: u8) -> (c: char)
    requires
        d < 16,
    ensures
        c == hex_digit_lower(d as int),
{
    if d < 10 {
        (48u8 + d) as char
    } else {
        (87u8 + d) as char
    }
}

/// The bytes read from a characteristic, as they are reported.
pub fn hex_dump(bytes: &[u8]) -> (s: String)
    ensures
        s@ == hex_dump_text(bytes@),
{
    let mut s = String::new();
    let n = bytes.len();
    let mut i: usize = 0;
    while i < n
        invariant
            n == bytes@.len(),
            i <= n,
            s@ == hex_dump_text(bytes@.take(i as int)),
        decreases n - i,
    {
        let b = bytes[i];
        push_char(&mut s, ' ');
        push_char(&mut s, hex_char_lower(b / 16));
        push_char(&mut s, hex_char_lower(b % 16));
        proof {
            let next = bytes@.take(i + 1);
            assert(next.drop_last() =~= bytes@.take(i as int));
            assert(next.last() == b);
        }
        i = i + 1;
        proof {
            assert(s@ =~= hex_dump_text(bytes@.take(i as int)));
        }
    }
    proof {
        assert(bytes@.take(n as int) =~= bytes@);
    }
    s
}

/// Why reading a characteristic failed.
#[derive(Debug, Clone)]
pub enum ReadError {
    /// The operation is not supported; the message says why.
    NotSupported(String),
    /// Any other failure.
    Other,
}

/// What is reported of an attempt to read a characteristic.
pub open spec fn read_report_text(result: core::result::Result<Vec<u8>, ReadError>) -> Seq<char> {
    match result {
        Ok(bytes) => hex_dump_text(bytes@),
        Err(ReadError::NotSupported(msg)) => " Can't read : "@ + msg@,
        Err(ReadError::Other) => "Another error"@,
    }
}

/// Reports an attempt to read a characteristic: the bytes read, or why
/// they could not be.
pub fn read_report(result: &core::result::Result<Vec<u8>, ReadError>) -> (s: String)
    ensures
        s@ == read_report_text(*result),
{
    match result {
        Ok(bytes) => hex_dump(bytes.as_slice()),
        Err(ReadError::NotSupported(msg)) => {
            let mut s = String::from_str(" Can't read : ");
            s.append(msg.as_str());
            s
        },
        Err(ReadError::Other) => String::from_str("Another error"),
    }
}

/// The READ bit is bit 1 (value 2) and the WRITE bit is bit 3 (value 8):
/// a characteristic counts as readable exactly when bit 1 of its properties
/// is set and as writable exactly when bit 3 is, whatever its other bits.
pub proof fn law_access_bits(p: u8)
    ensures
        readable(p) <==> (p / 2) % 2 == 1,
        writable(p) <==> (p / 8) % 2 == 1,
{
    assert(p & 0x02 == 0x02 <==> (p / 2) % 2 == 1) by (bit_vector);
    assert(p & 0x08 == 0x08 <==> (p / 8) % 2 == 1) by (bit_vector);
}

/// A hex dump reports every byte, in order, and nothing else: three
/// characters per byte, a space and then the two digits that `{:02x}`
/// writes (`'0'` + d below ten, `'a'` + (d - 10) above), which read back as
/// the byte's high and low halves.
pub proof fn law_hex_dump_bytes(bytes: Seq<u8>)
    ensures
        hex_dump_text(bytes).len() == 3 * bytes.len(),
        forall|i: int|
            0 <= i < bytes.len() ==> #[trigger] hex_dump_text(bytes)[3 * i] == ' ',
        forall|i: int|
            0 <= i < bytes.len() ==> #[trigger] hex_dump_text(bytes)[3 * i + 1] as int == (if bytes[i]
                / 16 < 10 {
                '0' as int + bytes[i] / 16
            } else {
                'a' as int + bytes[i] / 16 - 10
            }),
        forall|i: int|
            0 <= i < bytes.len() ==> #[trigger] hex_dump_text(bytes)[3 * i + 2] as int == (if bytes[i]
                % 16 < 10 {
                '0' as int + bytes[i] % 16
            } else {
                'a' as int + bytes[i] % 16 - 10
            }),
        forall|i: int|
            0 <= i < bytes.len() ==> hex_digit_value(#[trigger] hex_dump_text(bytes)[3 * i + 1])
                == Some((bytes[i] / 16) as int) && hex_digit_value(hex_dump_text(bytes)[3 * i + 2])
                == Some((bytes[i] % 16) as int),
    decreases bytes.len(),
{
    if bytes.len() > 0 {
        let init = bytes.drop_last();
        law_hex_dump_bytes(init);
        let t = hex_dump_text(bytes);
        let u = hex_dump_text(init);
        let n = init.len() as int;
        assert(t == u + seq![' '] + hex_lower(bytes.last()));
        assert forall|i: int| 0 <= i < bytes.len() implies {
            &&& t[3 * i] == ' '
            &&& t[3 * i + 1] as int == (if bytes[i] / 16 < 10 {
                '0' as int + bytes[i] / 16
            } else {
                'a' as int + bytes[i] / 16 - 10
            })
            &&& t[3 * i + 2] as int == (if bytes[i] % 16 < 10 {
                '0' as int + bytes[i] % 16
            } else {
                'a' as int + bytes[i] % 16 - 10
            })
            &&& hex_digit_value(t[3 * i + 1]) == Some((bytes[i] / 16) as int)
            &&& hex_digit_value(t[3 * i + 2]) == Some((bytes[i] % 16) as int)
        } by {
            if i < n {
                assert(bytes[i] == init[i]);
                assert(t[3 * i] == u[3 * i]);
                assert(t[3 * i + 1] == u[3 * i + 1]);
                assert(t[3 * i + 2] == u[3 * i + 2]);
            } else {
                assert(bytes[i] == bytes.last());
                assert(t[3 * i + 1] == hex_digit_lower((bytes[i] / 16) as int));
                assert(t[3 * i + 2] == hex_digit_lower((bytes[i] % 16) as int));
            }
        }
    }
}

/// A successful read is reported byte for byte, however many bytes were
/// read: its report is the hex dump of all of them, three characters per
/// byte.
pub proof fn law_read_report_of_bytes(v: Vec<u8>)
    ensures
        read_report_text(Ok(v)) == hex_dump_text(v@),
        read_report_text(Ok(v)).len() == 3 * v@.len(),
{
    law_hex_dump_bytes(v@);
}

proof fn lemma_upper_digit_reads_back(d: int)
    requires
        0 <= d < 16,
    ensures
        hex_digit_value(hex_digit_upper(d)) == Some(d),
        hex_digit_upper(d) != ':',
        hex_digit_upper(d) != '+',
{
}

proof fn lemma_upper_byte_reads_back(b: u8)
    ensures
        hex_byte(hex_upper(b)) == Some(b),
        hex_upper(b).len() == 2,
        hex_upper(b)[0] != ':',
        hex_upper(b)[1] != ':',
{
    let h = hex_upper(b);
    let hi = (b / 16) as int;
    let lo = (b % 16) as int;
    lemma_upper_digit_reads_back(hi);
    lemma_upper_digit_reads_back(lo);
    assert(h.drop_last() =~= seq![h[0]]);
    assert(seq![h[0]].drop_last() =~= Seq::<char>::empty());
    assert(seq![h[0]].last() == h[0]);
    assert(h[0] == hex_digit_upper(hi));
    assert(h[1] == hex_digit_upper(lo));
    assert(hex_digits_value(Seq::<char>::empty()) == Some(0int));
    assert(hex_digits_value(seq![h[0]]) == Some(hi));
    assert(hex_digits_value(h) == Some(hi * 16 + lo));
    assert(hi * 16 + lo == b as int);
}

proof fn lemma_parts_pair(a: char, b: char)
    requires
        a != ':',
        b != ':',
    ensures
        colon_parts(seq![a, b]) == seq![seq![a, b]],
{
    let e = Seq::<char>::empty();
    assert(colon_parts(e) == seq![e]);
    assert(seq![b].drop_first() =~= e);
    assert(colon_parts(seq![b])[0] =~= seq![b]);
    assert(colon_parts(seq![b]) =~= seq![seq![b]]);
    assert(seq![a, b].drop_first() =~= seq![b]);
    assert(colon_parts(seq![a, b])[0] =~= seq![a, b]);
    assert(colon_parts(seq![a, b]) =~= seq![seq![a, b]]);
}

proof fn lemma_parts_pair_then(a: char, b: char, rest: Seq<char>)
    requires
        a != ':',
        b != ':',
    ensures
        colon_parts(seq![a, b, ':'] + rest) == seq![seq![a, b]] + colon_parts(rest),
{
    let e = Seq::<char>::empty();
    let r = colon_parts(rest);
    let c3 = seq![':'] + rest;
    let c2 = seq![b, ':'] + rest;
    let c1 = seq![a, b, ':'] + rest;
    assert(c3.drop_first() =~= rest);
    assert(c3[0] == ':');
    let p3 = colon_parts(c3);
    assert(p3 == seq![e] + r);
    assert(c2.drop_first() =~= c3);
    assert(c2[0] == b);
    let p2 = colon_parts(c2);
    assert(p2 == p3.update(0, seq![b] + p3[0]));
    assert(p3[0] == e);
    assert(seq![b] + e =~= seq![b]);
    assert(p2 =~= seq![seq![b]] + r);
    assert(c1.drop_first() =~= c2);
    assert(c1[0] == a);
    let p1 = colon_parts(c1);
    assert(p1 == p2.update(0, seq![a] + p2[0]));
    assert(p2[0] == seq![b]);
    assert(seq![a] + seq![b] =~= seq![a, b]);
    assert(p1 =~= seq![seq![a, b]] + r);
}

/// An address written out as text is read back as the same address: the
/// text that `to_text` gives is one that `parse` accepts, with the same six
/// bytes in the same order.
pub proof fn law_address_text_reads_back(a: Seq<u8>)
    requires
        a.len() == 6,
    ensures
        bd_addr_of_text(address_text(a)) == Some(a),
{
    let h0 = hex_upper(a[0]);
    let h1 = hex_upper(a[1]);
    let h2 = hex_upper(a[2]);
    let h3 = hex_upper(a[3]);
    let h4 = hex_upper(a[4]);
    let h5 = hex_upper(a[5]);
    lemma_upper_byte_reads_back(a[0]);
    lemma_upper_byte_reads_back(a[1]);
    lemma_upper_byte_reads_back(a[2]);
    lemma_upper_byte_reads_back(a[3]);
    lemma_upper_byte_reads_back(a[4]);
    lemma_upper_byte_reads_back(a[5]);
    let r0 = seq![h0[0], h0[1]];
    let r1 = seq![h1[0], h1[1], ':'] + r0;
    let r2 = seq![h2[0], h2[1], ':'] + r1;
    let r3 = seq![h3[0], h3[1], ':'] + r2;
    let r4 = seq![h4[0], h4[1], ':'] + r3;
    let r5 = seq![h5[0], h5[1], ':'] + r4;
    assert(address_text(a) =~= r5);
    lemma_parts_pair(h0[0], h0[1]);
    lemma_parts_pair_then(h1[0], h1[1], r0);
    lemma_parts_pair_then(h2[0], h2[1], r1);
    lemma_parts_pair_then(h3[0], h3[1], r2);
    lemma_parts_pair_then(h4[0], h4[1], r3);
    lemma_parts_pair_then(h5[0], h5[1], r4);
    let parts = colon_parts(r5);
    assert(h0 =~= seq![h0[0], h0[1]]);
    assert(h1 =~= seq![h1[0], h1[1]]);
    assert(h2 =~= seq![h2[0], h2[1]]);
    assert(h3 =~= seq![h3[0], h3[1]]);
    assert(h4 =~= seq![h4[0], h4[1]]);
    assert(h5 =~= seq![h5[0], h5[1]]);
    assert(parts =~= seq![h5, h4, h3, h2, h1, h0]);
    assert(forall|i: int| 0 <= i < 6 ==> (#[trigger] hex_byte(parts[i])) is Some);
    assert(Seq::new(6, |i: int| hex_byte(parts[5 - i]).unwrap()) =~= a);
}

} // verus!
