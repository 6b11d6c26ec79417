use btwin::winapi::{
    new_device_info, select_device_params, selected_device, BtDevice, Enumeration, Error, Radio,
    DEVICE_INFO_SIZE, DEVICE_SEARCH_PARAMS_SIZE, ERROR_INVALID_PARAMETER, ERROR_NO_MORE_ITEMS,
    ERROR_OUTOFMEMORY, ERROR_REVISION_MISMATCH, MAX_NAME_SIZE,
};

#[test]
fn from_code_known_codes() {
    assert_eq!(Error::from_code(259), Error::NoMoreItems);
    assert_eq!(Error::from_code(87), Error::InvalidParameter);
    assert_eq!(Error::from_code(1306), Error::RevisionMismatch);
    assert_eq!(Error::from_code(14), Error::OutOfMemory);
    assert_eq!(ERROR_NO_MORE_ITEMS, 259);
    assert_eq!(ERROR_INVALID_PARAMETER, 87);
    assert_eq!(ERROR_REVISION_MISMATCH, 1306);
    assert_eq!(ERROR_OUTOFMEMORY, 14);
}

#[test]
fn from_code_other_codes() {
    assert_eq!(Error::from_code(0), Error::Other(0));
    assert_eq!(Error::from_code(5), Error::Other(5));
    assert_eq!(Error::from_code(u32::MAX), Error::Other(u32::MAX));
}

#[test]
fn from_code_keeps_code() {
    let codes = [0u32, 5, 14, 87, 258, 259, 260, 1306, 4294967295];
    for a in codes {
        for b in codes {
            assert_eq!(Error::from_code(a) == Error::from_code(b), a == b);
        }
    }
}

#[test]
fn error_messages() {
    assert_eq!(Error::NoMoreItems.message(), "ERROR_NO_MORE_ITEMS");
    assert_eq!(Error::InvalidParameter.message(), "ERROR_INVALID_PARAMETER");
    assert_eq!(Error::RevisionMismatch.message(), "ERROR_REVISION_MISMATCH");
    assert_eq!(Error::OutOfMemory.message(), "ERROR_OUTOFMEMORY");
    assert_eq!(Error::Other(1167).message(), "Unknown error : 1167");
    assert_eq!(Error::Other(0).message(), "Unknown error : 0");
}

#[test]
fn new_device_info_is_blank() {
    let info = new_device_info();
    assert_eq!(info.size, DEVICE_INFO_SIZE);
    assert_eq!(info.size, 560);
    assert_eq!(info.address, 0);
    assert_eq!(info.class_of_device, 0);
    assert_eq!(info.connected, 0);
    assert_eq!(info.remembered, 0);
    assert_eq!(info.authenticated, 0);
    assert_eq!(info.last_seen.year, 0);
    assert_eq!(info.last_used.milliseconds, 0);
    assert_eq!(info.name.len(), MAX_NAME_SIZE);
    assert!(info.name.iter().all(|u| *u == 0));
}

fn info_named(name: &str) -> btwin::winapi::DeviceInfo {
    let mut info = new_device_info();
    for (i, u) in name.encode_utf16().enumerate() {
        info.name[i] = u;
    }
    info
}

#[test]
fn device_name_is_read_up_to_nul() {
    let d = BtDevice::new(info_named("Makeblock_LE001b1067c8af"));
    assert_eq!(d.name(), "Makeblock_LE001b1067c8af");
}

#[test]
fn device_name_of_blank_record_is_empty() {
    let d = BtDevice::new(new_device_info());
    assert_eq!(d.name(), "");
}

#[test]
fn device_name_with_supplementary_characters() {
    let d = BtDevice::new(info_named("robot \u{1f916}"));
    assert_eq!(d.name(), "robot \u{1f916}");
}

#[test]
fn bt_device_new_keeps_info() {
    let mut info = new_device_info();
    info.address = 0x001B1067C8AF;
    let d = BtDevice::new(info);
    assert_eq!(d.info.address, 0x001B1067C8AF);
}

#[test]
fn radio_keeps_handle_and_search_params() {
    let r = Radio::new(0x1234);
    assert_eq!(r.handle(), 0x1234);
    let p = r.device_search_params();
    assert_eq!(p.size, DEVICE_SEARCH_PARAMS_SIZE);
    assert_eq!(p.size, 29);
    assert_eq!(p.return_authenticated, 0);
    assert_eq!(p.return_remembered, 0);
    assert_eq!(p.return_unknown, 0);
    assert_eq!(p.return_connected, 0);
    assert_eq!(p.issue_inquiry, 0);
    assert_eq!(p.timeout_multiplier, 1);
    assert_eq!(p.radio, 0x1234);
}

#[test]
fn select_params() {
    let p = select_device_params();
    assert_eq!(p.info, vec![82, 111, 98, 111, 116, 0]);
    assert_eq!(p.num_of_classes, 0);
    assert_eq!(p.force_authentication, 0);
    assert_eq!(p.show_authenticated, 1);
    assert_eq!(p.show_remembered, 1);
    assert_eq!(p.show_unknown, 1);
    assert_eq!(p.add_new_device_wizard, 1);
    assert_eq!(p.skip_services_page, 1);
    assert_eq!(p.num_devices, 1);
}

#[test]
fn selection_answer() {
    let mut info = new_device_info();
    info.address = 42;
    assert_eq!(selected_device(1, info.clone()).map(|d| d.info.address), Some(42));
    assert!(selected_device(0, info.clone()).is_none());
    assert!(selected_device(-1, info).is_none());
}

#[test]
fn enumeration_collects_in_order() {
    let mut e = Enumeration::start(Some(10u32), 0);
    assert!(e.wants_next());
    e.advance(Some(11));
    e.advance(Some(12));
    assert!(e.wants_next());
    e.advance(None);
    assert!(!e.wants_next());
    assert!(e.must_close());
    assert_eq!(e.finish(), Ok(vec![10, 11, 12]));
}

#[test]
fn enumeration_of_one() {
    let mut e = Enumeration::start(Some(Radio::new(7)), ERROR_NO_MORE_ITEMS);
    e.advance(None);
    assert!(e.must_close());
    let radios = e.finish().unwrap();
    assert_eq!(radios.len(), 1);
    assert_eq!(radios[0].handle(), 7);
}

#[test]
fn enumeration_ignores_answers_after_the_end() {
    let mut e = Enumeration::start(Some(1u8), 0);
    e.advance(None);
    e.advance(Some(2));
    assert!(!e.wants_next());
    assert_eq!(e.finish(), Ok(vec![1]));
}

#[test]
fn enumeration_nothing_found() {
    let e: Enumeration<u8> = Enumeration::start(None, 259);
    assert!(!e.wants_next());
    assert!(!e.must_close());
    assert_eq!(e.finish(), Ok(vec![]));
}

#[test]
fn enumeration_first_call_fails() {
    let e: Enumeration<u8> = Enumeration::start(None, 87);
    assert!(!e.must_close());
    assert_eq!(e.finish(), Err(Error::InvalidParameter));
    let mut e: Enumeration<u8> = Enumeration::start(None, 1167);
    e.advance(Some(3));
    assert_eq!(e.finish(), Err(Error::Other(1167)));
    let e: Enumeration<u8> = Enumeration::start(None, 14);
    assert_eq!(e.finish(), Err(Error::OutOfMemory));
    let e: Enumeration<u8> = Enumeration::start(None, 1306);
    assert_eq!(e.finish(), Err(Error::RevisionMismatch));
}

#[test]
fn reexports_from_crate_root() {
    let e: btwin::Error = btwin::btwinapi::Error::NoMoreItems;
    let r: btwin::btwinapi::Result<()> = Err(e);
    assert!(r.is_err());
}

#[test]
fn radios_and_handles_agree() {
    let answers = [Some(3usize), Some(9), None];
    let mut handles = Enumeration::start(Some(1usize), 0);
    let mut radios = Enumeration::start(Some(Radio::new(1)), 0);
    for a in answers {
        handles.advance(a);
        radios.advance(a.map(Radio::new));
    }
    assert_eq!(handles.must_close(), radios.must_close());
    let hs = handles.finish().unwrap();
    let rs: Vec<usize> = radios.finish().unwrap().iter().map(|r| r.handle()).collect();
    assert_eq!(hs, rs);
    let handles: Enumeration<usize> = Enumeration::start(None, 87);
    let radios: Enumeration<Radio> = Enumeration::start(None, 87);
    assert_eq!(handles.finish().err(), radios.finish().err());
}
