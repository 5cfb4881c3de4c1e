use librarylink::process::{get_process_info, ImageQuery, ProcessInfo};

fn units(s: &str) -> Vec<u16> {
    s.encode_utf16().collect()
}

#[test]
fn open_failure_is_absent() {
    assert!(get_process_info(&ImageQuery::OpenFailed).is_none());
}

#[test]
fn query_failure_reports_unknown_path() {
    let info = get_process_info(&ImageQuery::QueryFailed).unwrap();
    assert_eq!(info.path, "<Unknown>");
    assert_eq!(info.name, "<Unknown>");
}

#[test]
fn empty_image_reports_unknown_path() {
    let info = get_process_info(&ImageQuery::Image(Vec::new())).unwrap();
    assert_eq!(info.path, "<Unknown>");
    assert_eq!(info.name, "<Unknown>");
}

#[test]
fn image_path_is_decoded_and_named() {
    let info = get_process_info(&ImageQuery::Image(units("C:\\Apps\\Foo\\foo.exe"))).unwrap();
    assert_eq!(info.path, "C:\\Apps\\Foo\\foo.exe");
    assert_eq!(info.name, "foo.exe");
}

#[test]
fn invalid_units_decode_to_replacement() {
    let info = get_process_info(&ImageQuery::Image(vec![0x43, 0x3a, 0x5c, 0xD800, 0x78])).unwrap();
    assert_eq!(info.path, "C:\\\u{FFFD}x");
    assert_eq!(info.name, "\u{FFFD}x");
}

#[test]
fn name_is_final_segment_of_path() {
    for path in ["C:\\Windows\\System32\\notepad.exe", "notepad.exe", "\\\\server\\share\\a.exe", "C:\\dir\\"] {
        let info = get_process_info(&ImageQuery::Image(units(path))).unwrap();
        assert_eq!(info.path, path);
        assert_eq!(Some(info.name.as_str()), path.split('\\').next_back());
    }
}

#[test]
fn snapshot_from_path_derives_name() {
    let info = ProcessInfo::from_path("D:\\Games\\Bar\\bar-worker.exe".to_string());
    assert_eq!(info.name, "bar-worker.exe");
}
