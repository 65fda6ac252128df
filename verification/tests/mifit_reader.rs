//! Device keys out of log texts and manifests.
use astro_plugins::element::UiEvent;
use astro_plugins::json::Json;
use astro_plugins::mifit::archive::is_decodable;
use astro_plugins::mifit::extractor::{
    dedup_pairs, devices_in, devices_of_archive, has_readable_pages, is_hex_32,
    iter_json_objects, normalize_name, parse_android_log, parse_android_log_text,
    parse_android_zip, parse_ios_sqlite, parse_unpacked, read_ios_sqlite, DeviceInfo, Platform,
};
use astro_plugins::mifit::package::{find_file_by_name, gather, unpack, Unpacked, ZipEntry};
use astro_plugins::mifit::sqlite::{
    parse_sqlite_record, parse_sqlite_serial_type, read_signed, read_u16, read_u32, read_varint,
    SqliteCellValue, SqliteError, SqliteFile,
};
use astro_plugins::mifit::ui::{
    android_outcome, build_main_ui, copied, copy_encrypt_key_event_index, finish_pick, newest_file, picked_name,
    picker_extensions, render_main_ui, resolve_picked_file_path, session_name, status_text_color, ui_event_processor, ExtractionOutcome,
    FoundFile, PickedFile, UiEffect, UiState,
};
use nskeyedarchiver_converter::plist::{Dictionary, Uid, Value};

const KEY: &str = "0123456789abcdef0123456789ABCDEF";
const LOWER: &str = "0123456789abcdef0123456789abcdef";

#[test]
fn copy_encrypt_key_event_index_accepts_generated_event_ids() {
    assert_eq!(copy_encrypt_key_event_index("copy_encrypt_key_0"), Some(0));
    assert_eq!(
        copy_encrypt_key_event_index("copy_encrypt_key_42"),
        Some(42)
    );
}

#[test]
fn copy_encrypt_key_event_index_rejects_invalid_event_ids() {
    assert_eq!(copy_encrypt_key_event_index("copy_encrypt_key_"), None);
    assert_eq!(copy_encrypt_key_event_index("copy_encrypt_key_a"), None);
    assert_eq!(copy_encrypt_key_event_index("pick_android_zip"), None);
}

// ---------------------------------------------------------------- log texts

#[test]
fn objects_are_found_between_other_text() {
    let found = iter_json_objects(r#"a {"x":"}"} b } {"y":{"z":1}} {"open":"#);
    assert_eq!(found, vec![r#"{"x":"}"}"#.to_string(), r#"{"y":{"z":1}}"#.to_string()]);
}

#[test]
fn a_key_takes_the_nearest_name() {
    let log = format!(
        r#"12:00 I {{"name":"Band","detail":{{"encryptKey":"{KEY}"}}}} tail
           {{"encryptKey":"{KEY}","deviceName":"  Watch "}} {{"encryptKey":"short"}} {{broken}}"#
    );
    let devices = parse_android_log_text(&log);
    assert_eq!(devices.len(), 2);
    assert_eq!((devices[0].name.as_str(), devices[0].encrypt_key.as_str()), ("Band", LOWER));
    assert_eq!((devices[1].name.as_str(), devices[1].encrypt_key.as_str()), ("Watch", LOWER));
    assert_eq!(devices[0].platform, Platform::Android);
    assert!(parse_android_log_text("nothing here").is_empty());
}

#[test]
fn pairs_are_unique_and_sorted() {
    let pairs = vec![
        ("b".to_string(), LOWER.to_string()),
        ("a".to_string(), KEY.to_string()),
        ("b".to_string(), KEY.to_string()),
        ("$null".to_string(), LOWER.to_string()),
        ("c".to_string(), "no key".to_string()),
    ];
    let names: Vec<String> =
        dedup_pairs(&pairs, Platform::Ios).into_iter().map(|d| d.name).collect();
    assert_eq!(names, vec!["a", "b", "未知设备"]);
    assert!(is_hex_32(KEY));
    assert!(!is_hex_32("0123"));
    assert_eq!(normalize_name(" x "), Some("x".into()));
    assert_eq!(normalize_name("  "), None);
}

#[test]
fn a_key_without_a_name_is_an_unknown_device() {
    let value = Json::parse(&format!(r#"[{{"encrypt_key":"{KEY}"}}]"#)).unwrap();
    let devices = devices_in(&value, Platform::Ios);
    assert_eq!(devices.len(), 1);
    assert_eq!(devices[0].name, "未知设备");
}

// ---------------------------------------------------------------- manifests

fn varint(value: u64) -> Vec<u8> {
    let mut out = vec![(value & 0x7F) as u8];
    let mut rest = value >> 7;
    while rest > 0 {
        out.insert(0, (rest & 0x7F) as u8 | 0x80);
        rest >>= 7;
    }
    out
}

fn record(columns: &[(u64, Vec<u8>)]) -> Vec<u8> {
    let types: Vec<u8> = columns.iter().flat_map(|(kind, _)| varint(*kind)).collect();
    let mut out = varint(types.len() as u64 + 1);
    out.extend(types);
    for (_, data) in columns {
        out.extend(data);
    }
    out
}

fn text_column(value: &str) -> (u64, Vec<u8>) {
    (13 + 2 * value.len() as u64, value.as_bytes().to_vec())
}

fn blob_column(value: &[u8]) -> (u64, Vec<u8>) {
    (12 + 2 * value.len() as u64, value.to_vec())
}

const PAGE: usize = 512;

/// A leaf page with one row; what does not fit goes to pages from `next` on.
fn leaf_page(first: bool, payload: &[u8], next: u32) -> Vec<Vec<u8>> {
    let min = (PAGE - 12) * 32 / 255 - 23;
    let mut local = payload.len();
    if local > PAGE - 35 {
        local = min + (payload.len() - min) % (PAGE - 4);
        if local > PAGE - 35 {
            local = min;
        }
    }
    let mut cell = varint(payload.len() as u64);
    cell.push(1);
    cell.extend(&payload[..local]);
    let mut overflow = Vec::new();
    if local < payload.len() {
        cell.extend(next.to_be_bytes());
        let parts: Vec<&[u8]> = payload[local..].chunks(PAGE - 4).collect();
        for (index, part) in parts.iter().enumerate() {
            let follower = if index + 1 < parts.len() { next + index as u32 + 1 } else { 0 };
            let mut page = follower.to_be_bytes().to_vec();
            page.extend(*part);
            page.resize(PAGE, 0);
            overflow.push(page);
        }
    }
    let base = if first { 100 } else { 0 };
    let at = PAGE - cell.len();
    let mut page = vec![0; PAGE];
    page[base] = 0x0D;
    page[base + 4] = 1;
    page[base + 8..base + 10].copy_from_slice(&(at as u16).to_be_bytes());
    page[at..].copy_from_slice(&cell);
    let mut pages = vec![page];
    pages.extend(overflow);
    pages
}

fn database(archive: &[u8]) -> Vec<u8> {
    let master = record(&[
        text_column("table"),
        text_column("manifest"),
        text_column("manifest"),
        (1, vec![2]),
    ]);
    let row = record(&[
        text_column("registerList_cn"),
        (0, vec![]),
        (9, vec![]),
        blob_column(archive),
    ]);
    let mut pages = leaf_page(true, &master, 0);
    pages.extend(leaf_page(false, &row, 3));
    let mut bytes = pages.concat();
    bytes[..16].copy_from_slice(b"SQLite format 3\0");
    bytes[16..18].copy_from_slice(&(PAGE as u16).to_be_bytes());
    bytes
}

fn archive() -> Vec<u8> {
    archive_with(Dictionary::new(), false, "NSKeyedArchiver")
}

/// An archive with one more object, to which the device refers if it is linked.
fn archive_with(other: Dictionary, linked: bool, archiver: &str) -> Vec<u8> {
    let mut device = Dictionary::new();
    device.insert("$class".into(), Value::Uid(Uid::new(2)));
    device.insert("name".into(), Value::Uid(Uid::new(3)));
    device.insert("encryptKey".into(), Value::Uid(Uid::new(4)));
    device.insert("notes".into(), Value::String("n".repeat(1200)));
    if linked {
        device.insert("more".into(), Value::Array(vec![Value::Uid(Uid::new(6))]));
    }
    let mut class = Dictionary::new();
    class.insert("$classes".into(), Value::Array(vec![Value::String("Device".into())]));
    let mut dictionary = Dictionary::new();
    dictionary
        .insert("$classes".into(), Value::Array(vec![Value::String("NSDictionary".into())]));
    let mut top = Dictionary::new();
    top.insert("root".into(), Value::Uid(Uid::new(1)));
    let mut root = Dictionary::new();
    root.insert("$archiver".into(), Value::String(archiver.into()));
    root.insert("$version".into(), Value::Integer(100000u64.into()));
    root.insert("$top".into(), Value::Dictionary(top));
    root.insert(
        "$objects".into(),
        Value::Array(vec![
            Value::String("$null".into()),
            Value::Dictionary(device),
            Value::Dictionary(class),
            Value::String("Smart Band".into()),
            Value::String(KEY.into()),
            Value::Dictionary(dictionary),
            Value::Dictionary(other),
        ]),
    );
    let mut out = Vec::new();
    Value::Dictionary(root).to_writer_binary(&mut out).unwrap();
    out
}

#[test]
fn keys_are_read_from_a_manifest_with_overflow_pages() {
    let bytes = database(&archive());
    assert!(has_readable_pages(&SqliteFile::parse(bytes.clone()).unwrap()));
    let devices = parse_ios_sqlite(bytes).unwrap();
    assert_eq!(devices.len(), 1);
    assert_eq!(devices[0].name, "Smart Band");
    assert_eq!(devices[0].encrypt_key, LOWER);
    assert_eq!(devices[0].platform, Platform::Ios);
}

fn dictionary(class: u64, values: usize) -> Dictionary {
    let references = |n: usize| Value::Array(vec![Value::Uid(Uid::new(3)); n]);
    let mut other = Dictionary::new();
    other.insert("$class".into(), Value::Uid(Uid::new(class)));
    other.insert("NS.keys".into(), references(2));
    other.insert("NS.objects".into(), references(values));
    other
}

#[test]
fn dictionaries_need_their_values() {
    let with = |class, values| archive_with(dictionary(class, values), true, "NSKeyedArchiver");
    assert!(is_decodable(&archive()));
    assert!(is_decodable(b"no archive"));
    assert!(is_decodable(&with(5, 2)));
    assert!(is_decodable(&with(2, 1)));
    assert!(!is_decodable(&with(5, 1)));
    assert!(read_ios_sqlite(database(&with(5, 1))).is_none());
    assert_eq!(read_ios_sqlite(database(&with(5, 2))).unwrap().unwrap().len(), 1);
    assert_eq!(
        read_ios_sqlite(vec![0; 100]).unwrap().unwrap_err(),
        "文件头不是 SQLite format 3"
    );
}

#[test]
fn dictionaries_that_nothing_refers_to_do_not_matter() {
    let lonely = archive_with(dictionary(5, 1), false, "NSKeyedArchiver");
    assert!(is_decodable(&lonely));
    let devices = read_ios_sqlite(database(&lonely)).unwrap().unwrap();
    assert_eq!(devices[0].encrypt_key, LOWER);
    let other = archive_with(dictionary(5, 1), true, "Another");
    assert!(is_decodable(&other));
    let fault = read_ios_sqlite(database(&other)).unwrap().unwrap_err();
    assert!(fault.starts_with("解析 NSKeyedArchiver 二进制 plist 失败: "));
}

#[test]
fn small_pages_matter_only_where_a_cell_is_read() {
    let mut bytes = vec![0u8; 100];
    bytes[..16].copy_from_slice(b"SQLite format 3\0");
    bytes[17] = 100;
    let fault = read_ios_sqlite(bytes.clone()).unwrap().unwrap_err();
    assert_eq!(fault, "页头长度不足 (page=1)");
    bytes[17] = 120;
    bytes.resize(120, 0);
    bytes[100] = 0x0D;
    assert_eq!(
        read_ios_sqlite(bytes.clone()).unwrap().unwrap_err(),
        "未在 sqlite_master 中找到表 manifest"
    );
    bytes[104] = 1;
    bytes[109] = 115;
    let file = SqliteFile::parse(bytes.clone()).unwrap();
    assert!(!has_readable_pages(&file));
    assert!(matches!(file.read_table_rows(1), Err(SqliteError::NoRoomForPayload)));
    assert!(read_ios_sqlite(bytes).is_none());
}

#[test]
fn a_damaged_archive_is_reported() {
    let fault = parse_ios_sqlite(database(b"no archive")).unwrap_err();
    assert!(fault.starts_with("解析 NSKeyedArchiver 二进制 plist 失败: "));
    assert_eq!(
        devices_of_archive(Ok(Json::Null)).unwrap_err(),
        "iOS 数据中未找到有效的设备 encryptKey 信息"
    );
    assert_eq!(
        devices_of_archive(Err((false, "why".into()))).unwrap_err(),
        "解码 NSKeyedArchiver 失败: why"
    );
}

#[test]
fn files_that_are_no_database_are_reported() {
    assert_eq!(parse_ios_sqlite(vec![0; 99]).unwrap_err(), "sqlite 文件过小，不是有效 SQLite 文件");
    assert_eq!(parse_ios_sqlite(vec![0; 100]).unwrap_err(), "文件头不是 SQLite format 3");
    let mut tiny = database(b"");
    tiny[16..18].copy_from_slice(&[0, 4]);
    assert_eq!(parse_ios_sqlite(tiny).unwrap_err(), "SQLite 页大小异常");
    let mut other = database(b"");
    let at = other.windows(8).position(|w| w == b"manifest").unwrap();
    other[at] = b'M';
    assert_eq!(parse_ios_sqlite(other).unwrap_err(), "未在 sqlite_master 中找到表 manifest");
}

#[test]
fn damaged_pages_have_their_errors() {
    let file = SqliteFile::parse(database(b"")).unwrap();
    assert_eq!(file.page_data(0).unwrap_err().message(), "页号不能为 0");
    assert_eq!(
        file.page_data(3).unwrap_err().message(),
        "页号越界 (page=3, page_size=512, file_len=1024)"
    );
    assert_eq!(file.find_table_root_page("manifest").unwrap(), Some(2));
    assert_eq!(file.find_table_root_page("none").unwrap(), None);
    assert_eq!(file.read_table_rows(2).unwrap().len(), 1);
    let mut bytes = database(b"");
    bytes[PAGE] = 0x0A;
    let file = SqliteFile::parse(bytes).unwrap();
    assert_eq!(
        file.read_table_rows(2).unwrap_err().message(),
        "不支持的表 B-Tree 页类型 0A (page=2)"
    );
    let mut bytes = database(b"");
    bytes[PAGE] = 0x77;
    let file = SqliteFile::parse(bytes).unwrap();
    assert_eq!(
        file.read_table_rows(2).unwrap_err().message(),
        "未知 B-Tree 页类型 77 (page=2)"
    );
    let mut bytes = database(b"");
    bytes[PAGE] = 0x05;
    bytes[PAGE + 3..PAGE + 5].copy_from_slice(&[0, 0]);
    bytes[PAGE + 8..PAGE + 12].copy_from_slice(&2u32.to_be_bytes());
    let file = SqliteFile::parse(bytes).unwrap();
    assert!(matches!(file.read_table_rows(2), Err(SqliteError::PagesInCircle)));
}

#[test]
fn numbers_are_read_big_endian() {
    assert_eq!(read_u16(&[1, 2], 0).unwrap(), 258);
    assert!(read_u16(&[1, 2], 1).is_err());
    assert_eq!(read_u32(&[0, 0, 1, 0], 0).unwrap(), 256);
    assert!(read_u32(&[0, 0, 1], 0).is_err());
    assert_eq!(read_varint(&[0x81, 0x00], 0).unwrap(), (128, 2));
    assert_eq!(read_varint(&[0xFF; 9], 0).unwrap(), (u64::MAX, 9));
    assert!(read_varint(&[0x80], 0).is_err());
    assert_eq!(read_signed(&[0xFF, 0xFE], 2).unwrap(), -2);
    assert_eq!(read_signed(&[0x7F], 1).unwrap(), 127);
    assert!(read_signed(&[], 1).is_err());
}

#[test]
fn records_hold_every_kind_of_value() {
    let columns = [
        (0, vec![]),
        (1, vec![0xFF]),
        (7, vec![0x3F, 0xF0, 0, 0, 0, 0, 0, 0]),
        (8, vec![]),
        blob_column(&[1, 2]),
        text_column("é"),
    ];
    let row = parse_sqlite_record(&record(&columns)).unwrap();
    assert!(matches!(row[0], SqliteCellValue::Null));
    assert_eq!(row[1].as_integer(), Some(-1));
    assert!(matches!(row[2], SqliteCellValue::Real(0x3FF0_0000_0000_0000)));
    assert_eq!(row[3].as_integer(), Some(0));
    assert_eq!(row[4].as_blob(), Some(&[1u8, 2][..]));
    assert_eq!(row[5].as_text(), Some("é"));
    let lossy = parse_sqlite_record(&record(&[(15, vec![0xFF])])).unwrap();
    assert_eq!(lossy[0].as_text(), Some("\u{FFFD}"));
    assert!(matches!(parse_sqlite_serial_type(10, &[]), Err(SqliteError::ReservedSerialType)));
    assert!(matches!(parse_sqlite_serial_type(14, &[]), Err(SqliteError::BlobOutOfRange)));
    assert!(matches!(parse_sqlite_serial_type(15, &[]), Err(SqliteError::TextOutOfRange)));
    assert!(matches!(parse_sqlite_serial_type(7, &[0]), Err(SqliteError::RealOutOfRange)));
    assert!(matches!(parse_sqlite_record(&[9]), Err(SqliteError::BadRecordHeader)));
}

// ---------------------------------------------------------------- pages

fn device(name: &str) -> DeviceInfo {
    DeviceInfo { name: name.into(), encrypt_key: LOWER.into(), platform: Platform::Ios }
}

#[test]
fn a_copy_event_names_its_device() {
    let mut state = UiState::default();
    state.devices = vec![device("a"), device("b")];
    match ui_event_processor(&mut state, UiEvent::Click, "copy_encrypt_key_1") {
        UiEffect::Copy { name, key } => assert_eq!((name.as_str(), key.as_str()), ("b", LOWER)),
        _ => panic!("no copy"),
    }
    assert!(!matches!(
        ui_event_processor(&mut state, UiEvent::Click, "copy_encrypt_key_2"),
        UiEffect::Copy { .. }
    ));
    assert!(matches!(
        ui_event_processor(&mut state, UiEvent::Click, "pick_android_zip"),
        UiEffect::Pick(Platform::Android)
    ));
    copied(&mut state, "b", true);
    assert_eq!(state.status, "已复制 b 的 AuthKey");
}

#[test]
fn a_reading_ends_in_a_status() {
    let mut state = UiState::default();
    finish_pick(
        &mut state,
        Platform::Ios,
        Ok(ExtractionOutcome {
            source_file: "manifest.sqlite".into(),
            detail: Some("x".into()),
            devices: vec![device("a")],
        }),
    );
    assert_eq!(state.status, "解析完成：iOS 设备 1 台（x）");
    assert_eq!(state.devices.len(), 1);
    finish_pick(&mut state, Platform::Ios, Err("why".into()));
    assert_eq!(state.status, "处理失败：why");
    assert_eq!(state.devices.len(), 1);
    assert_ne!(status_text_color("处理失败：why"), status_text_color("解析完成"));
}

#[test]
fn the_newest_suitable_file_is_taken() {
    let file = |extension: &str, modified: i128| FoundFile {
        extension: Some(extension.into()),
        modified,
    };
    let files = vec![file("ZIP", 1), file("zip", 5), file("zip", 5), file("db", 9)];
    assert_eq!(newest_file(&files, Platform::Android), Some(1));
    assert_eq!(newest_file(&files, Platform::Ios), Some(3));
    assert_eq!(newest_file(&vec![], Platform::Ios), None);
    let found = |exists: Vec<bool>| {
        resolve_picked_file_path("a.zip", &exists, &files, Platform::Android)
    };
    assert_eq!(found(vec![false, true, true]), Ok(PickedFile::Named(1)));
    assert_eq!(found(vec![false, false]), Ok(PickedFile::Copied(1)));
    assert_eq!(
        resolve_picked_file_path("a.zip", &vec![false], &vec![], Platform::Android),
        Err("未在 copy-to 目录中找到可读取文件（returned name: a.zip）".into())
    );
    assert_eq!(picker_extensions(Platform::Android), vec!["zip"]);
    assert!(picker_extensions(Platform::Ios).is_empty());
    assert_eq!(session_name(Platform::Android, 17), "android_17");
    assert_eq!(picked_name(" a.zip "), Ok("a.zip".into()));
    assert_eq!(picked_name("  "), Err("未选择文件".into()));
}

#[test]
fn a_log_without_keys_is_a_fault() {
    let log = format!(r#"{{"name":"Band","encryptKey":"{KEY}"}}"#);
    let files = vec![Unpacked::File { path: LOG.into(), content: log.into_bytes() }];
    let outcome = android_outcome("a.zip".into(), parse_unpacked(&files, "x")).unwrap();
    assert_eq!(outcome.detail.as_deref(), Some("日志 x/XiaomiFit.main.log"));
    assert_eq!(outcome.devices.len(), 1);
    assert_eq!(
        android_outcome("a.zip".into(), parse_android_log("nothing").map(|d| (d, "x".into())))
            .err()
            .unwrap(),
        "未在日志中找到有效的设备 encryptKey 信息"
    );
}

#[test]
fn the_page_is_rendered_into_its_root() {
    let mut state = UiState::default();
    state.devices = vec![device("a")];
    let (root, element) = render_main_ui(&mut state, "root-1", "a.mp4", "i.mp4").unwrap();
    assert_eq!(root, "root-1");
    assert_eq!(state.root_element_id.as_deref(), Some("root-1"));
    let shown = format!("{element:?}");
    assert!(shown.contains("copy_encrypt_key_0"));
    assert_eq!(format!("{:?}", build_main_ui(&state, "a.mp4", "i.mp4")), shown);
}

const LOG: &str = "XiaomiFit.main.log";

fn zipped(entries: &[(&str, &[u8])]) -> Vec<u8> {
    let mut writer = zip::ZipWriter::new(std::io::Cursor::new(Vec::new()));
    for (name, data) in entries {
        let options = zip::write::SimpleFileOptions::default();
        writer.start_file(*name, options).unwrap();
        std::io::Write::write_all(&mut writer, data).unwrap();
    }
    writer.finish().unwrap().into_inner()
}

#[test]
fn devices_are_read_from_a_package() {
    let log = format!(r#"x {{"name":"Band","encryptKey":"{KEY}"}}"#);
    let bytes = zipped(&[("logs/", b""), ("logs/other", b"1"), ("logs/XiaomiFit.main.log", log.as_bytes())]);
    let (devices, path) = parse_android_zip(&bytes, "w/android_unzip").unwrap();
    assert_eq!(path, "w/android_unzip/logs/XiaomiFit.main.log");
    assert_eq!((devices[0].name.as_str(), devices[0].encrypt_key.as_str()), ("Band", LOWER));
    let files = unpack(&bytes, "w").unwrap();
    assert!(matches!(&files[0], Unpacked::Directory(p) if p == "logs/"));
    assert!(matches!(&files[1], Unpacked::File { path, content } if path == "logs/other" && content == b"1"));
    assert_eq!(files.len(), 3);
}

#[test]
fn faults_of_a_package_are_reported() {
    let fault = parse_android_zip(b"nothing", "w").unwrap_err();
    assert!(fault.starts_with("读取 zip 结构失败: "));
    let without = zipped(&[("a.log", b"x"), ("XiaomiFit.main.log.old", b"x")]);
    assert_eq!(parse_android_zip(&without, "w").unwrap_err(), "未在 zip 内找到 XiaomiFit.main.log");
    let silent = zipped(&[(LOG, b"nothing")]);
    assert_eq!(
        parse_android_zip(&silent, "w").unwrap_err(),
        "未在日志中找到有效的设备 encryptKey 信息"
    );
    let binary = zipped(&[(LOG, &[0xff, 0xfe])]);
    assert_eq!(
        parse_android_zip(&binary, "w").unwrap_err(),
        "读取日志失败 (w/XiaomiFit.main.log): stream did not contain valid UTF-8"
    );
    let mut damaged = zipped(&[("a", b"first"), (LOG, b"second")]);
    let central = damaged.windows(4).position(|w| w == b"PK\x01\x02").unwrap();
    damaged[central + 16] ^= 1;
    assert_eq!(parse_android_zip(&damaged, "w").unwrap_err(), "解压文件失败 (w/a): Invalid checksum");
    let mut lost = zipped(&[("a", b"first"), (LOG, b"second")]);
    lost[0] = b'Q';
    let fault = parse_android_zip(&lost, "w").unwrap_err();
    assert!(fault.starts_with("读取 zip 条目失败 (index=0): "));
}

#[test]
fn paths_that_lead_out_are_passed_over() {
    let log = format!(r#"{{"name":"Band","encryptKey":"{KEY}"}}"#);
    let out = zipped(&[("../XiaomiFit.main.log", log.as_bytes()), ("/XiaomiFit.main.log", b"x"), ("a/../../b", b"x")]);
    assert!(unpack(&out, "w").unwrap().is_empty());
    assert!(parse_android_zip(&out, "w").is_err());
    let back = zipped(&[("a/../b", b"x")]);
    assert_eq!(unpack(&back, "w").unwrap().len(), 1);
}

#[test]
fn the_last_log_counts() {
    let entry = |path: &str, data: &str| {
        Ok(ZipEntry {
            name: path.into(),
            path: Some(path.into()),
            content: Ok(data.as_bytes().to_vec()),
        })
    };
    let hidden = Ok(ZipEntry { name: "h".into(), path: None, content: Err("e".into()) });
    let entries = vec![entry("a/b", "1"), hidden, entry("x/XiaomiFit.main.log", "2"), entry("a", "3"), entry(LOG, "4")];
    let files = gather(entries, "w").unwrap();
    assert_eq!(files.len(), 4);
    assert_eq!(find_file_by_name(&files, LOG), Some(3));
    assert_eq!(find_file_by_name(&files, "b"), Some(0));
    assert_eq!(find_file_by_name(&files, "c"), None);
    let fault = gather(vec![entry("a", "1"), Err("lost".into())], "w").err().unwrap();
    assert_eq!(fault, "读取 zip 条目失败 (index=1): lost");
}
