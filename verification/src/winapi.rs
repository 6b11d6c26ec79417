//! Bluetooth radios and devices as the Win32 Bluetooth API reports them.
//!
//! The calls into the operating system are made by the program around this
//! library; here stand the values it exchanges with them and the decisions
//! taken on what they answer.
use vstd::prelude::*;

use crate::utils::{
    ToWide, utf16_decode, utf16_encode, until_nul, FromWide, WideString, lemma_encode_no_nul,
    lemma_nul_position, law_decoding_inverts_encoding,
};

verus! {

/// Win32 `ERROR_NO_MORE_ITEMS`.
pub const ERROR_NO_MORE_ITEMS: u32 = 259;

/// Win32 `ERROR_INVALID_PARAMETER`.
pub const ERROR_INVALID_PARAMETER: u32 = 87;

/// Win32 `ERROR_REVISION_MISMATCH`.
pub const ERROR_REVISION_MISMATCH: u32 = 1306;

/// Win32 `ERROR_OUTOFMEMORY`.
pub const ERROR_OUTOFMEMORY: u32 = 14;

/// Number of UTF-16 units of the name buffer of a device record
/// (`BLUETOOTH_MAX_NAME_SIZE`).
pub const MAX_NAME_SIZE: usize = 248;

/// `sizeof(BLUETOOTH_DEVICE_INFO)`: a 4-byte size, 4 bytes of padding, an
/// 8-byte address, four 4-byte fields, two 16-byte `SYSTEMTIME`s and the
/// 496-byte name.
pub const DEVICE_INFO_SIZE: u32 = 560;

/// The size announced in the radio search parameters.
pub const RADIO_FIND_PARAMS_SIZE: u32 = 4;

/// The size announced in the device search parameters.
pub const DEVICE_SEARCH_PARAMS_SIZE: u32 = 6 * 4 + 1 + 4;

/// A Win32 error, as reported by `GetLastError`.
#[derive(Debug, Clone, Copy, PartialEq, Eq, Structural)]
pub enum Error {
    NoMoreItems,
    InvalidParameter,
    RevisionMismatch,
    OutOfMemory,
    Other(u32),
}

pub type Result<T> = core::result::Result<T, Error>;

impl Error {
    /// The error that a Win32 error code stands for.
    pub open spec fn of_code(code: u32) -> Error {
        if code == ERROR_NO_MORE_ITEMS {
            Error::NoMoreItems
        } else if code == ERROR_INVALID_PARAMETER {
            Error::InvalidParameter
        } else if code == ERROR_REVISION_MISMATCH {
            Error::RevisionMismatch
        } else if code == ERROR_OUTOFMEMORY {
            Error::OutOfMemory
        } else {
            Error::Other(code)
        }
    }

    /// The text of the error.
    pub open spec fn text(self) -> Seq<char> {
        match self {
            Error::NoMoreItems => "ERROR_NO_MORE_ITEMS"@,
            Error::InvalidParameter => "ERROR_INVALID_PARAMETER"@,
            Error::RevisionMismatch => "ERROR_REVISION_MISMATCH"@,
            Error::OutOfMemory => "ERROR_OUTOFMEMORY"@,
            Error::Other(code) => "Unknown error : "@ + crate::utils::decimal(code as nat),
        }
    }

    /// Maps a Win32 error code to its error.
    pub fn from_code(code: u32) -> (e: Error)
        ensures
            e == Error::of_code(code),
    {
        if code == ERROR_NO_MORE_ITEMS {
            Error::NoMoreItems
        } else if code == ERROR_INVALID_PARAMETER {
            Error::InvalidParameter
        } else if code == ERROR_REVISION_MISMATCH {
            Error::RevisionMismatch
        } else if code == ERROR_OUTOFMEMORY {
            Error::OutOfMemory
        } else {
            Error::Other(code)
        }
    }

    /// The text of the error, as it is displayed.
    pub fn message(&self) -> (m: String)
        ensures
            m@ == self.text(),
    {
        match self {
            Error::NoMoreItems => String::from_str("ERROR_NO_MORE_ITEMS"),
            Error::InvalidParameter => String::from_str("ERROR_INVALID_PARAMETER"),
            Error::RevisionMismatch => String::from_str("ERROR_REVISION_MISMATCH"),
            Error::OutOfMemory => String::from_str("ERROR_OUTOFMEMORY"),
            Error::Other(code) => {
                let mut m = String::from_str("Unknown error : ");
                crate::utils::push_decimal(&mut m, *code as u64);
                m
            },
        }
    }
}

/// A Win32 `SYSTEMTIME`.
#[derive(Debug, Clone, Copy, PartialEq, Eq, Structural)]
pub struct SystemTime {
    pub year: u16,
    pub month: u16,
    pub day_of_week: u16,
    pub day: u16,
    pub hour: u16,
    pub minute: u16,
    pub second: u16,
    pub milliseconds: u16,
}

impl SystemTime {
    pub open spec fn is_zero(self) -> bool {
        &&& self.year == 0
        &&& self.month == 0
        &&& self.day_of_week == 0
        &&& self.day == 0
        &&& self.hour == 0
        &&& self.minute == 0
        &&& self.second == 0
        &&& self.milliseconds == 0
    }
}

impl Default for SystemTime {
    /// The all-zero time.
    fn default() -> (t: SystemTime)
        ensures
            t.is_zero(),
    {
        SystemTime {
            year: 0,
            month: 0,
            day_of_week: 0,
            day: 0,
            hour: 0,
            minute: 0,
            second: 0,
            milliseconds: 0,
        }
    }
}

/// The fields of a Win32 `BLUETOOTH_DEVICE_INFO` record.
#[derive(Debug, Clone)]
pub struct DeviceInfo {
    /// `dwSize`: the size of the record, in bytes.
    pub size: u32,
    /// `Address`: the 48-bit Bluetooth address.
    pub address: u64,
    /// `ulClassofDevice`.
    pub class_of_device: u32,
    /// `fConnected` (Win32 `BOOL`).
    pub connected: i32,
    /// `fRemembered` (Win32 `BOOL`).
    pub remembered: i32,
    /// `fAuthenticated` (Win32 `BOOL`).
    pub authenticated: i32,
    /// `stLastSeen`.
    pub last_seen: SystemTime,
    /// `stLastUsed`.
    pub last_used: SystemTime,
    /// `szName`: the name, NUL-terminated UTF-16, `MAX_NAME_SIZE` units.
    pub name: Vec<u16>,
}

/// A device record ready to be filled in by the Win32 API: its size set,
/// the null address, every flag and time zero and an empty name buffer.
pub fn new_device_info() -> (info: DeviceInfo)
    ensures
        info.size == DEVICE_INFO_SIZE,
        info.address == 0,
        info.class_of_device == 0,
        info.connected == 0,
        info.remembered == 0,
        info.authenticated == 0,
        info.last_seen.is_zero(),
        info.last_used.is_zero(),
        info.name@ == Seq::new(MAX_NAME_SIZE as nat, |i: int| 0u16),
{
    let mut name: Vec<u16> = Vec::new();
    let mut i: usize = 0;
    while i < MAX_NAME_SIZE
        invariant
            i <= MAX_NAME_SIZE,
            name@ == Seq::new(i as nat, |k: int| 0u16),
        decreases MAX_NAME_SIZE - i,
    {
        name.push(0);
        i = i + 1;
        proof {
            assert(name@ =~= Seq::new(i as nat, |k: int| 0u16));
        }
    }
    DeviceInfo {
        size: DEVICE_INFO_SIZE,
        address: 0,
        class_of_device: 0,
        connected: 0,
        remembered: 0,
        authenticated: 0,
        last_seen: SystemTime::default(),
        last_used: SystemTime::default(),
        name,
    }
}

/// A Bluetooth device found by a radio or chosen by the user.
#[derive(Debug, Clone)]
pub struct BtDevice {
    pub info: DeviceInfo,
}

impl BtDevice {
    /// The name in the device record, decoded, where it is valid UTF-16.
    pub open spec fn decoded_name(self) -> Option<Seq<char>> {
        utf16_decode(until_nul(self.info.name@))
    }

    pub fn new(info: DeviceInfo) -> (d: BtDevice)
        ensures
            d.info == info,
    {
        BtDevice { info }
    }

    /// The device's name: the units of the name buffer before its first NUL,
    /// decoded from UTF-16.
    pub fn name(&self) -> (name: String)
        requires
            self.decoded_name() is Some,
        ensures
            Some(name@) == self.decoded_name(),
    {
        let wide = WideString::from_wide(self.info.name.as_slice());
        match wide.into_string() {
            Ok(name) => name,
            Err(_) => {
                proof {
                    assert(false);
                }
                String::new()
            },
        }
    }
}

/// The parameters of a device search (`BLUETOOTH_DEVICE_SEARCH_PARAMS`).
#[derive(Debug, Clone, Copy, PartialEq, Eq, Structural)]
pub struct DeviceSearchParams {
    pub size: u32,
    pub return_authenticated: i32,
    pub return_remembered: i32,
    pub return_unknown: i32,
    pub return_connected: i32,
    pub issue_inquiry: i32,
    pub timeout_multiplier: u8,
    /// The handle of the radio to search with.
    pub radio: usize,
}

/// A local Bluetooth radio, known by its Win32 handle.
#[derive(Debug)]
pub struct Radio {
    handle: usize,
}

impl Radio {
    pub closed spec fn handle_value(&self) -> usize {
        self.handle
    }

    pub fn new(handle: usize) -> (r: Radio)
        ensures
            r.handle_value() == handle,
    {
        Radio { handle }
    }

    /// The Win32 handle of the radio.
    pub fn handle(&self) -> (h: usize)
        ensures
            h == self.handle_value(),
    {
        self.handle
    }

    /// The parameters with which the devices of this radio are searched:
    /// no filter flag is set, no inquiry is issued, the timeout multiplier
    /// is one.
    pub fn device_search_params(&self) -> (p: DeviceSearchParams)
        ensures
            p.size == DEVICE_SEARCH_PARAMS_SIZE,
            p.return_authenticated == 0,
            p.return_remembered == 0,
            p.return_unknown == 0,
            p.return_connected == 0,
            p.issue_inquiry == 0,
            p.timeout_multiplier == 1,
            p.radio == self.handle_value(),
    {
        DeviceSearchParams {
            size: DEVICE_SEARCH_PARAMS_SIZE,
            return_authenticated: 0,
            return_remembered: 0,
            return_unknown: 0,
            return_connected: 0,
            issue_inquiry: 0,
            timeout_multiplier: 1,
            radio: self.handle,
        }
    }
}

/// The parameters of the device selection dialog
/// (`BLUETOOTH_SELECT_DEVICE_PARAMS`), but for the pointers and the size of
/// the record, which depend on the machine.
#[derive(Debug, Clone)]
pub struct SelectDeviceParams {
    pub num_of_classes: u32,
    /// The prompt of the dialog, NUL-terminated UTF-16.
    pub info: Vec<u16>,
    pub force_authentication: i32,
    pub show_authenticated: i32,
    pub show_remembered: i32,
    pub show_unknown: i32,
    pub add_new_device_wizard: i32,
    pub skip_services_page: i32,
    /// How many devices the caller's buffer holds.
    pub num_devices: u32,
}

/// The selection dialog asks for one device under the prompt "Robot", shows
/// authenticated, remembered and unknown devices, offers the wizard for new
/// devices, skips the services page and does not force authentication.
pub fn select_device_params() -> (p: SelectDeviceParams)
    ensures
        p.num_of_classes == 0,
        p.info@ == utf16_encode("Robot"@).push(0),
        p.force_authentication == 0,
        p.show_authenticated == 1,
        p.show_remembered == 1,
        p.show_unknown == 1,
        p.add_new_device_wizard == 1,
        p.skip_services_page == 1,
        p.num_devices == 1,
{
    SelectDeviceParams {
        num_of_classes: 0,
        info: "Robot".to_wide(),
        force_authentication: 0,
        show_authenticated: 1,
        show_remembered: 1,
        show_unknown: 1,
        add_new_device_wizard: 1,
        skip_services_page: 1,
        num_devices: 1,
    }
}

/// What the selection dialog's answer means: the chosen device where the
/// dialog returned a positive `BOOL`, none otherwise.
pub fn selected_device(answer: i32, chosen: DeviceInfo) -> (d: Option<BtDevice>)
    ensures
        d is Some <==> answer > 0,
        d matches Some(dev) ==> dev.info == chosen,
{
    if answer > 0 {
        Some(BtDevice::new(chosen))
    } else {
        None
    }
}

/// Where a Win32 find-first / find-next enumeration stands.
pub struct FindState<T> {
    /// What the calls have delivered so far, in order.
    pub items: Seq<T>,
    /// The error that ended the enumeration, if one did.
    pub failure: Option<Error>,
    /// Whether the first call opened a find handle (which must be closed).
    pub opened: bool,
    /// Whether the enumeration is over.
    pub exhausted: bool,
}

impl<T> FindState<T> {
    /// The state after the first call, which delivered `first` or, where it
    /// failed, left `last_error`. A failure with `ERROR_NO_MORE_ITEMS` means
    /// that there is nothing to find.
    pub open spec fn started(first: Option<T>, last_error: u32) -> FindState<T> {
        match first {
            Some(x) => FindState { items: seq![x], failure: None, opened: true, exhausted: false },
            None => FindState {
                items: seq![],
                failure: if Error::of_code(last_error) == Error::NoMoreItems {
                    None
                } else {
                    Some(Error::of_code(last_error))
                },
                opened: false,
                exhausted: true,
            },
        }
    }

    /// The state after a next call that delivered `next`, or nothing more.
    /// Once the enumeration is over, further answers change nothing.
    pub open spec fn advanced(self, next: Option<T>) -> FindState<T> {
        if self.exhausted {
            self
        } else {
            match next {
                Some(x) => FindState { items: self.items.push(x), ..self },
                None => FindState { exhausted: true, ..self },
            }
        }
    }

    /// The state after a run of next calls.
    pub open spec fn advanced_by(self, nexts: Seq<Option<T>>) -> FindState<T>
        decreases nexts.len(),
    {
        if nexts.len() == 0 {
            self
        } else {
            self.advanced_by(nexts.drop_last()).advanced(nexts.last())
        }
    }

    /// What the enumeration gives: the error that ended it, or the items.
    pub open spec fn outcome(self) -> core::result::Result<Seq<T>, Error> {
        match self.failure {
            Some(e) => Err(e),
            None => Ok(self.items),
        }
    }
}

/// The decisions of a Win32 find-first / find-next enumeration (radios,
/// devices): the caller makes the calls and hands over what they answered.
pub struct Enumeration<T> {
    items: Vec<T>,
    failure: Option<Error>,
    opened: bool,
    exhausted: bool,
}

impl<T> View for Enumeration<T> {
    type V = FindState<T>;

    closed spec fn view(&self) -> FindState<T> {
        FindState {
            items: self.items@,
            failure: self.failure,
            opened: self.opened,
            exhausted: self.exhausted,
        }
    }
}

impl<T> Enumeration<T> {
    /// Starts from the answer of the first call: the item it delivered, or
    /// none and the code that `GetLastError` gave.
    pub fn start(first: Option<T>, last_error: u32) -> (e: Enumeration<T>)
        ensures
            e@ == FindState::started(first, last_error),
    {
        match first {
            Some(x) => {
                let mut items: Vec<T> = Vec::new();
                items.push(x);
                proof {
                    assert(items@ =~= seq![x]);
                }
                Enumeration { items, failure: None, opened: true, exhausted: false }
            },
            None => {
                let err = Error::from_code(last_error);
                let failure = match err {
                    Error::NoMoreItems => None,
                    e => Some(e),
                };
                let e = Enumeration { items: Vec::new(), failure, opened: false, exhausted: true };
                proof {
                    assert(e@.items =~= Seq::<T>::empty());
                }
                e
            },
        }
    }

    /// Whether a next call is to be made.
    pub fn wants_next(&self) -> (b: bool)
        ensures
            b == !self@.exhausted,
    {
        !self.exhausted
    }

    /// Takes in the answer of a next call: the item it delivered, or none
    /// where there was no more.
    pub fn advance(&mut self, next: Option<T>)
        ensures
            final(self)@ == old(self)@.advanced(next),
    {
        if !self.exhausted {
            match next {
                Some(x) => {
                    self.items.push(x);
                },
                None => {
                    self.exhausted = true;
                },
            }
        }
    }

    /// Whether the find handle is to be closed: exactly where the first
    /// call opened one.
    pub fn must_close(&self) -> (b: bool)
        ensures
            b == self@.opened,
    {
        self.opened
    }

    /// The outcome of the enumeration.
    pub fn finish(self) -> (r: Result<Vec<T>>)
        ensures
            r matches Ok(v) ==> self@.outcome() == Ok::<Seq<T>, Error>(v@),
            r matches Err(e) ==> self@.outcome() == Err::<Seq<T>, Error>(e),
    {
        match self.failure {
            Some(e) => Err(e),
            None => Ok(self.items),
        }
    }
}

/// No two Win32 error codes map to the same error: `from_code` keeps the
/// code, and gives `Other` exactly for the codes it has no variant for.
pub proof fn law_from_code_keeps_code(c1: u32, c2: u32)
    ensures
        Error::of_code(c1) == Error::of_code(c2) ==> c1 == c2,
        (Error::of_code(c1) == Error::Other(c1)) <==> (c1 != ERROR_NO_MORE_ITEMS && c1
            != ERROR_INVALID_PARAMETER && c1 != ERROR_REVISION_MISMATCH && c1 != ERROR_OUTOFMEMORY),
{
}

proof fn lemma_collects<T>(st: FindState<T>, ys: Seq<T>)
    requires
        !st.exhausted,
    ensures
        st.advanced_by(ys.map_values(|y: T| Some(y))) == (FindState { items: st.items + ys, ..st }),
    decreases ys.len(),
{
    let nexts = ys.map_values(|y: T| Some(y));
    if ys.len() == 0 {
        assert(st.items + ys =~= st.items);
    } else {
        let init = ys.drop_last();
        assert(nexts.drop_last() =~= init.map_values(|y: T| Some(y)));
        lemma_collects(st, init);
        assert((st.items + init).push(ys.last()) =~= st.items + ys);
    }
}

/// An enumeration whose first call delivers `first` and whose next calls
/// deliver `rest` and then nothing more gives exactly `first` followed by
/// `rest`, in that order, and has a find handle to close.
pub proof fn law_enumeration_collects_all<T>(first: T, rest: Seq<T>, last_error: u32)
    ensures
        ({
            let end = FindState::started(Some(first), last_error).advanced_by(
                rest.map_values(|y: T| Some(y)).push(None),
            );
            &&& end.exhausted
            &&& end.opened
            &&& end.outcome() == Ok::<Seq<T>, Error>(seq![first] + rest)
        }),
{
    let st = FindState::started(Some(first), last_error);
    let nexts = rest.map_values(|y: T| Some(y)).push(None);
    assert(nexts.drop_last() =~= rest.map_values(|y: T| Some(y)));
    lemma_collects(st, rest);
}

/// Once an enumeration is over, further answers change nothing.
pub proof fn law_enumeration_over_is_final<T>(st: FindState<T>, nexts: Seq<Option<T>>)
    requires
        st.exhausted,
    ensures
        st.advanced_by(nexts) == st,
    decreases nexts.len(),
{
    if nexts.len() > 0 {
        law_enumeration_over_is_final(st, nexts.drop_last());
    }
}

/// Where the first call fails, the enumeration is over at once, nothing is
/// to be closed, and it gives no item where the code is
/// `ERROR_NO_MORE_ITEMS` and the error of the code otherwise.
pub proof fn law_enumeration_first_failure<T>(last_error: u32, nexts: Seq<Option<T>>)
    ensures
        ({
            let end = FindState::<T>::started(None, last_error).advanced_by(nexts);
            &&& end.exhausted
            &&& !end.opened
            &&& end.outcome() == (if last_error == ERROR_NO_MORE_ITEMS {
                Ok::<Seq<T>, Error>(Seq::<T>::empty())
            } else {
                Err::<Seq<T>, Error>(Error::of_code(last_error))
            })
        }),
{
    let st = FindState::<T>::started(None, last_error);
    law_enumeration_over_is_final(st, nexts);
    assert(st.items =~= Seq::<T>::empty());
}

/// A find handle is to be closed at the end exactly where the first call
/// delivered an item, whatever the next calls answer.
pub proof fn law_enumeration_closes_what_it_opened<T>(
    first: Option<T>,
    last_error: u32,
    nexts: Seq<Option<T>>,
)
    ensures
        FindState::started(first, last_error).advanced_by(nexts).opened == (first is Some),
    decreases nexts.len(),
{
    if nexts.len() > 0 {
        law_enumeration_closes_what_it_opened(first, last_error, nexts.drop_last());
    }
}

/// A call's answer as a radio and the same answer as a bare handle: both
/// nothing, or the radio of that handle.
pub open spec fn same_radio_answer(radio: Option<Radio>, handle: Option<usize>) -> bool {
    match (radio, handle) {
        (Some(r), Some(h)) => r.handle_value() == h,
        (None, None) => true,
        _ => false,
    }
}

spec fn radio_states_match(r: FindState<Radio>, h: FindState<usize>) -> bool {
    &&& r.failure == h.failure
    &&& r.opened == h.opened
    &&& r.exhausted == h.exhausted
    &&& r.items.len() == h.items.len()
    &&& forall|i: int| 0 <= i < r.items.len() ==> r.items[i].handle_value() == h.items[i]
}

proof fn lemma_radio_states_match(
    first_radio: Option<Radio>,
    first_handle: Option<usize>,
    last_error: u32,
    next_radios: Seq<Option<Radio>>,
    next_handles: Seq<Option<usize>>,
)
    requires
        same_radio_answer(first_radio, first_handle),
        next_radios.len() == next_handles.len(),
        forall|i: int|
            0 <= i < next_radios.len() ==> same_radio_answer(
                #[trigger] next_radios[i],
                next_handles[i],
            ),
    ensures
        radio_states_match(
            FindState::started(first_radio, last_error).advanced_by(next_radios),
            FindState::started(first_handle, last_error).advanced_by(next_handles),
        ),
    decreases next_radios.len(),
{
    if next_radios.len() > 0 {
        let n = next_radios.len() - 1;
        lemma_radio_states_match(
            first_radio,
            first_handle,
            last_error,
            next_radios.drop_last(),
            next_handles.drop_last(),
        );
        assert(same_radio_answer(next_radios[n], next_handles[n]));
    }
}

/// Enumerating the radios and enumerating their bare handles agree, where
/// the calls answer the same: both end with the same error, or both give
/// their items, the radios being those of the handles, one for one and in
/// order; and both have a find handle to close or neither has.
pub proof fn law_radios_and_handles_agree(
    first_radio: Option<Radio>,
    first_handle: Option<usize>,
    last_error: u32,
    next_radios: Seq<Option<Radio>>,
    next_handles: Seq<Option<usize>>,
)
    requires
        same_radio_answer(first_radio, first_handle),
        next_radios.len() == next_handles.len(),
        forall|i: int|
            0 <= i < next_radios.len() ==> same_radio_answer(
                #[trigger] next_radios[i],
                next_handles[i],
            ),
    ensures
        ({
            let r = FindState::started(first_radio, last_error).advanced_by(next_radios);
            let h = FindState::started(first_handle, last_error).advanced_by(next_handles);
            &&& r.opened == h.opened
            &&& (r.outcome() is Ok <==> h.outcome() is Ok)
            &&& (h.outcome() matches Err(e) ==> r.outcome() == Err::<Seq<Radio>, Error>(e))
            &&& (h.outcome() matches Ok(hs) ==> r.outcome() matches Ok(rs) && rs.len() == hs.len()
                && forall|i: int| 0 <= i < rs.len() ==> rs[i].handle_value() == hs[i])
        }),
{
    lemma_radio_states_match(first_radio, first_handle, last_error, next_radios, next_handles);
}

/// A device whose name buffer holds the UTF-16 of a text without NUL, then
/// a NUL (and anything after it), is named by that whole text, however long
/// it is.
pub proof fn law_device_name_reads_text(d: BtDevice, s: Seq<char>)
    requires
        !s.contains('\0'),
        utf16_encode(s).len() < d.info.name@.len(),
        d.info.name@.take(utf16_encode(s).len() as int) == utf16_encode(s),
        d.info.name@[utf16_encode(s).len() as int] == 0,
    ensures
        d.decoded_name() == Some(s),
{
    let enc = utf16_encode(s);
    let w = d.info.name@;
    lemma_encode_no_nul(s);
    assert forall|j: int| 0 <= j < enc.len() implies w[j] != 0 by {
        assert(w.take(enc.len() as int)[j] == w[j]);
    }
    lemma_nul_position(w, enc.len() as int);
    assert(until_nul(w) == enc);
    law_decoding_inverts_encoding(s);
}

} // verus!
