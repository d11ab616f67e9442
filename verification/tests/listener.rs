use flow_aggregator::listener::{
    is_capture_name, name_ends_with, processed_name, PCAP_EXTENSION, PCAP_LISTEN_INTERVAL_SECS,
    PCAP_PARSED_EXTENSION, PCAP_PATH,
};
use flow_aggregator::{Action, Event, PcapListener};

fn names(list: &[&str]) -> Vec<String> {
    list.iter().map(|n| String::from(*n)).collect()
}

#[test]
fn constants_of_the_directory_loop() {
    assert_eq!(PCAP_PATH, "./pcaps");
    assert_eq!(PCAP_EXTENSION, ".pcap");
    assert_eq!(PCAP_PARSED_EXTENSION, ".parsed");
    assert_eq!(PCAP_LISTEN_INTERVAL_SECS, 5);
}

#[test]
fn names_ending_in_the_extension_are_captures() {
    assert!(is_capture_name("a.pcap"));
    assert!(is_capture_name("./pcaps/flows.2024.pcap"));
    assert!(is_capture_name(".pcap"));
    assert!(!is_capture_name("a.pcap.parsed"));
    assert!(!is_capture_name("a.pcapng"));
    assert!(!is_capture_name("pcap"));
    assert!(!is_capture_name(""));
    assert!(!is_capture_name("a.PCAP"));
}

#[test]
fn name_ends_with_compares_characters() {
    assert!(name_ends_with("caf\u{e9}.pcap", ".pcap"));
    assert!(name_ends_with("abc", ""));
    assert!(name_ends_with("", ""));
    assert!(name_ends_with("abc", "abc"));
    assert!(!name_ends_with("bc", "abc"));
    assert!(!name_ends_with("abd", "abc"));
    assert!(name_ends_with("x\u{e9}", "\u{e9}"));
    assert!(!name_ends_with("x\u{e9}", "e"));
}

#[test]
fn processed_name_appends_the_mark() {
    assert_eq!(processed_name("./pcaps/a.pcap"), "./pcaps/a.pcap.parsed");
    assert_eq!(processed_name(""), ".parsed");
}

#[test]
fn a_processed_file_is_left_out_of_the_next_scan() {
    for name in ["a.pcap", "", ".pcap", "b.pcap.parsed", "x"] {
        assert!(!is_capture_name(&processed_name(name)));
    }
}

#[test]
fn get_pcaps_list_keeps_captures_in_order() {
    let listing = names(&["b.pcap", "notes.txt", "a.pcap", "a.pcap.parsed", "c.pcap"]);
    assert_eq!(PcapListener::get_pcaps_list(&listing), names(&["b.pcap", "a.pcap", "c.pcap"]));
    assert!(PcapListener::get_pcaps_list(&Vec::new()).is_empty());
    assert!(PcapListener::get_pcaps_list(&names(&["x", "y.parsed"])).is_empty());
}

fn scan(action: &Action) -> bool {
    matches!(action, Action::Scan { directory } if directory == "./pcaps")
}

fn sleep(action: &Action) -> bool {
    matches!(action, Action::Sleep { seconds: 5 })
}

fn read(action: &Action, name: &str) -> bool {
    matches!(action, Action::Read { file } if file == name)
}

fn rename(action: &Action, name: &str) -> bool {
    matches!(action, Action::Rename { file, marked }
        if file == name && *marked == format!("{}.parsed", name))
}

fn skip(action: &Action, name: &str) -> bool {
    matches!(action, Action::Skip { file } if file == name)
}

/// How many flow records the listener asks to merge, if it asks for a merge.
fn merge(action: &Action) -> Option<usize> {
    match action {
        Action::Merge { flowsets } => Some(flowsets.len()),
        _ => None,
    }
}

/// A capture file with one frame that holds one flow to this port.
fn capture(port: u8) -> Vec<u8> {
    let mut bytes = vec![
        0xA1, 0xB2, 0xC3, 0xD4, 0, 2, 0, 4, 0, 0, 0, 0, 0, 0, 0, 0, 0, 0, 0xFF, 0xFF, 0, 0, 0, 1,
    ];
    let mut frame = vec![0u8; 32];
    frame.extend_from_slice(&[0, 5, 0, 1, 0, 0, 0, 1, 0, 0, 0, 2, 0, 0, 0, 3, 0, 0, 0, 4, 0, 0, 0, 0]);
    frame.extend_from_slice(&[
        10, 0, 0, 1, 10, 0, 0, 2, 0, 0, 0, 0, 0, 0, 0, 0, 0, 0, 0, 1, 0, 0, 0, 64, 0, 0, 0, 1, 0,
        0, 0, 2, 0x30, 0x39, 0, port, 0, 0, 6, 0, 0, 0, 0, 0, 0, 0, 0, 0,
    ]);
    let len = (frame.len() as u32).to_be_bytes();
    bytes.extend_from_slice(&[0, 0, 0, 1, 0, 0, 0, 2]);
    bytes.extend_from_slice(&len);
    bytes.extend_from_slice(&len);
    bytes.extend_from_slice(&frame);
    bytes
}

#[test]
fn listener_scans_first() {
    let mut listener = PcapListener::new();
    assert!(scan(&listener.listen(Event::Finished)));
    assert!(scan(&listener.listen(Event::Finished)));
}

#[test]
fn listener_sleeps_when_nothing_is_found() {
    let mut listener = PcapListener::new();
    assert!(scan(&listener.listen(Event::Finished)));
    assert!(sleep(&listener.listen(Event::Listing(Vec::new()))));
    assert!(scan(&listener.listen(Event::Finished)));
    assert!(sleep(&listener.listen(Event::Listing(names(&["readme", "old.pcap.parsed"])))));
    assert!(scan(&listener.listen(Event::Finished)));
}

#[test]
fn listener_reads_merges_and_renames_each_capture() {
    let mut listener = PcapListener::new();
    assert!(scan(&listener.listen(Event::Finished)));
    let listing = names(&["./pcaps/b.pcap", "./pcaps/skip.txt", "./pcaps/a.pcap"]);
    assert!(read(&listener.listen(Event::Listing(listing)), "./pcaps/b.pcap"));
    let action = listener.listen(Event::Loaded(capture(80)));
    assert_eq!(merge(&action), Some(1));
    match action {
        Action::Merge { flowsets } => assert_eq!(flowsets[0].dst_port, Some(80)),
        _ => unreachable!(),
    }
    assert!(rename(&listener.listen(Event::Finished), "./pcaps/b.pcap"));
    assert!(read(&listener.listen(Event::Finished), "./pcaps/a.pcap"));
    assert_eq!(merge(&listener.listen(Event::Loaded(capture(53)))), Some(1));
    assert!(rename(&listener.listen(Event::Finished), "./pcaps/a.pcap"));
    assert!(sleep(&listener.listen(Event::Finished)));
    assert!(scan(&listener.listen(Event::Finished)));
    assert!(read(&listener.listen(Event::Listing(names(&["c.pcap"]))), "c.pcap"));
}

#[test]
fn a_capture_without_flows_is_merged_and_renamed_all_the_same() {
    let mut listener = PcapListener::new();
    assert!(read(&listener.listen(Event::Listing(names(&["a.pcap"]))), "a.pcap"));
    let mut header_only = capture(80);
    header_only.truncate(24);
    assert_eq!(merge(&listener.listen(Event::Loaded(header_only))), Some(0));
    assert!(rename(&listener.listen(Event::Finished), "a.pcap"));
    assert!(sleep(&listener.listen(Event::Finished)));
}

#[test]
fn a_file_that_cannot_be_read_is_left_under_its_name() {
    let mut listener = PcapListener::new();
    assert!(read(&listener.listen(Event::Listing(names(&["a.pcap", "b.pcap"]))), "a.pcap"));
    assert!(read(&listener.listen(Event::Unreadable), "b.pcap"));
    assert!(sleep(&listener.listen(Event::Unreadable)));
    assert!(scan(&listener.listen(Event::Finished)));
}

#[test]
fn a_file_that_is_no_capture_is_logged_and_left_under_its_name() {
    let mut listener = PcapListener::new();
    assert!(read(&listener.listen(Event::Listing(names(&["a.pcap", "b.pcap"]))), "a.pcap"));
    assert!(skip(&listener.listen(Event::Loaded(vec![1, 2, 3])), "a.pcap"));
    assert!(read(&listener.listen(Event::Finished), "b.pcap"));
    assert!(skip(&listener.listen(Event::Loaded(Vec::new())), "b.pcap"));
    assert!(sleep(&listener.listen(Event::Finished)));
}

#[test]
fn a_new_listing_starts_a_new_pass() {
    let mut listener = PcapListener::new();
    assert!(read(&listener.listen(Event::Listing(names(&["a.pcap", "b.pcap"]))), "a.pcap"));
    assert!(read(&listener.listen(Event::Listing(names(&["c.pcap"]))), "c.pcap"));
    assert_eq!(merge(&listener.listen(Event::Loaded(capture(80)))), Some(1));
    assert!(read(&listener.listen(Event::Listing(names(&["d.pcap"]))), "d.pcap"));
}

#[test]
fn an_event_that_answers_nothing_starts_a_new_scan() {
    let mut listener = PcapListener::new();
    // bytes that nobody asked for
    assert!(scan(&listener.listen(Event::Loaded(capture(80)))));
    assert!(scan(&listener.listen(Event::Unreadable)));
    // a file is being read: it is not finished before its bytes have come
    assert!(read(&listener.listen(Event::Listing(names(&["a.pcap"]))), "a.pcap"));
    assert!(scan(&listener.listen(Event::Finished)));
    // a merge is under way: no bytes are awaited
    assert!(read(&listener.listen(Event::Listing(names(&["a.pcap"]))), "a.pcap"));
    assert_eq!(merge(&listener.listen(Event::Loaded(capture(80)))), Some(1));
    assert!(scan(&listener.listen(Event::Loaded(capture(80)))));
    // the listener sleeps: nothing is unreadable
    assert!(sleep(&listener.listen(Event::Listing(Vec::new()))));
    assert!(scan(&listener.listen(Event::Unreadable)));
}
