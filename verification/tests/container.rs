use sfx_archive::entries::Entry;
use sfx_archive::errors::SfxError;
use sfx_archive::extract::{plan_extraction, read_container};
use sfx_archive::pack::{pack_container, PackInput};

fn stub_bytes() -> Vec<u8> {
    b"\x7fELF-not-really-a-stub-but-long-enough-to-look-like-one".to_vec()
}

#[test]
fn round_trip_single_file() {
    let stub = stub_bytes();
    let input = PackInput::FileInput { name: b"hello.txt".to_vec(), data: b"hi there".to_vec() };
    let container = pack_container(&stub, input, 3, None).unwrap();

    assert!(container.starts_with(&stub));
    let entries = read_container(&container).unwrap().unwrap();
    assert_eq!(entries.len(), 1);
    assert_eq!(entries[0].path, b"hello.txt".to_vec());
    assert!(!entries[0].is_dir);
    assert_eq!(entries[0].data, b"hi there".to_vec());

    let plan = plan_extraction(&entries, &None).unwrap();
    assert_eq!(plan.target_dir, b".".to_vec());
    assert_eq!(plan.exec_cmd, None);
    assert_eq!(plan.files.len(), 1);
    assert_eq!(plan.files[0].path, b"hello.txt".to_vec());
    assert_eq!(plan.files[0].data, b"hi there".to_vec());
}

#[test]
fn round_trip_directory_tree() {
    let stub = stub_bytes();
    let items = vec![
        Entry { path: b"sub".to_vec(), is_dir: true, data: Vec::new() },
        Entry { path: b"sub/a.txt".to_vec(), is_dir: false, data: b"alpha".to_vec() },
        Entry { path: b"b.bin".to_vec(), is_dir: false, data: vec![0u8, 1, 2, 255] },
    ];
    let input = PackInput::DirInput { name: b"project".to_vec(), entries: items };
    let container =
        pack_container(&stub, input, 5, Some(b"touch done.txt".to_vec())).unwrap();

    let entries = read_container(&container).unwrap().unwrap();
    // The config entry is written first, then the user entries in order.
    assert_eq!(entries.len(), 4);
    assert_eq!(entries[0].path, b"__sfx_config".to_vec());
    assert_eq!(entries[0].data, b"exec=touch done.txt\ndir=project\n".to_vec());
    assert_eq!(entries[1].path, b"sub".to_vec());
    assert!(entries[1].is_dir);
    assert_eq!(entries[2].path, b"sub/a.txt".to_vec());
    assert_eq!(entries[2].data, b"alpha".to_vec());
    assert_eq!(entries[3].path, b"b.bin".to_vec());
    assert_eq!(entries[3].data, vec![0u8, 1, 2, 255]);

    // The plan excludes the config entry, resolves the directory default,
    // and carries the post-extraction command to run once all files exist.
    let plan = plan_extraction(&entries, &None).unwrap();
    assert_eq!(plan.target_dir, b"project".to_vec());
    assert_eq!(plan.exec_cmd, Some(b"touch done.txt".to_vec()));
    let paths: Vec<&[u8]> = plan.files.iter().map(|e| e.path.as_slice()).collect();
    assert_eq!(paths, vec![&b"sub"[..], &b"sub/a.txt"[..], &b"b.bin"[..]]);
}

#[test]
fn explicit_target_directory_wins() {
    let stub = stub_bytes();
    let items = vec![Entry { path: b"f".to_vec(), is_dir: false, data: b"x".to_vec() }];
    let input = PackInput::DirInput { name: b"project".to_vec(), entries: items };
    let container = pack_container(&stub, input, 3, None).unwrap();
    let entries = read_container(&container).unwrap().unwrap();
    let plan = plan_extraction(&entries, &Some(b"elsewhere".to_vec())).unwrap();
    assert_eq!(plan.target_dir, b"elsewhere".to_vec());
}

#[test]
fn single_file_never_emits_dir_line() {
    let stub = stub_bytes();
    let input = PackInput::FileInput { name: b"a.txt".to_vec(), data: b"a".to_vec() };
    let container =
        pack_container(&stub, input, 3, Some(b"echo hi".to_vec())).unwrap();
    let entries = read_container(&container).unwrap().unwrap();
    assert_eq!(entries[0].path, b"__sfx_config".to_vec());
    assert_eq!(entries[0].data, b"exec=echo hi\n".to_vec());
    let plan = plan_extraction(&entries, &None).unwrap();
    assert_eq!(plan.target_dir, b".".to_vec());
}

#[test]
fn footer_ends_with_magic_and_size() {
    let stub = stub_bytes();
    let input = PackInput::FileInput { name: b"x".to_vec(), data: vec![7u8; 1000] };
    let container = pack_container(&stub, input, 3, None).unwrap();

    let n = container.len();
    assert!(n >= 17);
    assert_eq!(&container[n - 9..], b"SFX_RS_01");
    let mut size_bytes = [0u8; 8];
    size_bytes.copy_from_slice(&container[n - 17..n - 9]);
    let archive_size = u64::from_le_bytes(size_bytes);
    assert_eq!(archive_size as usize, n - 17 - stub_bytes().len());
    assert!(archive_size <= (n - 17) as u64);
}

#[test]
fn bare_stub_reports_no_payload() {
    // A stub with nothing appended is a recognized, successful state.
    assert!(read_container(&stub_bytes()).unwrap().is_none());
}

#[test]
fn corrupted_magic_reports_no_payload() {
    let stub = stub_bytes();
    let input = PackInput::FileInput { name: b"x".to_vec(), data: b"data".to_vec() };
    let mut container = pack_container(&stub, input, 3, None).unwrap();
    let n = container.len();
    container[n - 1] ^= 0xff;
    assert!(read_container(&container).unwrap().is_none());
}

#[test]
fn appended_bytes_report_no_payload() {
    let stub = stub_bytes();
    let input = PackInput::FileInput { name: b"x".to_vec(), data: b"data".to_vec() };
    let mut container = pack_container(&stub, input, 3, None).unwrap();
    container.extend_from_slice(b"trailing junk");
    assert!(read_container(&container).unwrap().is_none());
}

#[test]
fn truncated_container_reports_no_payload_or_corrupt() {
    let stub = stub_bytes();
    let input = PackInput::FileInput { name: b"x".to_vec(), data: b"data".to_vec() };
    let container = pack_container(&stub, input, 3, None).unwrap();
    // Cutting into the payload destroys the magic marker.
    let cut = &container[..container.len() - 11];
    assert!(read_container(&cut.to_vec()).unwrap().is_none());
    // A short file has no room for a footer at all.
    assert!(read_container(&container[..10].to_vec()).unwrap().is_none());
}

#[test]
fn oversized_recorded_size_is_corrupt() {
    let mut container = stub_bytes();
    let huge: u64 = 1 << 40;
    container.extend_from_slice(&huge.to_le_bytes());
    container.extend_from_slice(b"SFX_RS_01");
    assert!(matches!(read_container(&container), Err(SfxError::CorruptArchive)));
}

#[test]
fn garbage_payload_is_corrupt() {
    let mut container = stub_bytes();
    let junk = b"this is not a zstd stream at all, not even close!!";
    container.extend_from_slice(junk);
    container.extend_from_slice(&(junk.len() as u64).to_le_bytes());
    container.extend_from_slice(b"SFX_RS_01");
    assert!(matches!(read_container(&container), Err(SfxError::CorruptArchive)));
}

#[test]
fn out_of_range_level_is_rejected() {
    let stub = stub_bytes();
    let mk = || PackInput::FileInput { name: b"x".to_vec(), data: b"d".to_vec() };
    assert_eq!(pack_container(&stub, mk(), 0, None), Err(SfxError::InvalidOption));
    assert_eq!(pack_container(&stub, mk(), 23, None), Err(SfxError::InvalidOption));
    assert_eq!(pack_container(&stub, mk(), -5, None), Err(SfxError::InvalidOption));
    assert!(pack_container(&stub, mk(), 1, None).is_ok());
    assert!(pack_container(&stub, mk(), 22, None).is_ok());
}

#[test]
fn missing_input_is_rejected() {
    let stub = stub_bytes();
    assert_eq!(
        pack_container(&stub, PackInput::Missing, 3, None),
        Err(SfxError::InvalidInput)
    );
}

#[test]
fn empty_directory_still_suggests_its_name() {
    let stub = stub_bytes();
    let input = PackInput::DirInput { name: b"empty".to_vec(), entries: Vec::new() };
    let container = pack_container(&stub, input, 3, None).unwrap();
    let entries = read_container(&container).unwrap().unwrap();
    assert_eq!(entries.len(), 1);
    assert_eq!(entries[0].path, b"__sfx_config".to_vec());
    assert_eq!(entries[0].data, b"dir=empty\n".to_vec());
    let plan = plan_extraction(&entries, &None).unwrap();
    assert_eq!(plan.target_dir, b"empty".to_vec());
    assert!(plan.files.is_empty());
    assert_eq!(plan.exec_cmd, None);
}

#[test]
fn deeply_nested_paths_round_trip() {
    let stub = stub_bytes();
    let long_path = b"a/b/c/d/e/f/with spaces/and-some-rather-long-component-name-here/leaf.txt"
        .to_vec();
    let items = vec![
        Entry { path: long_path.clone(), is_dir: false, data: vec![42u8; 5000] },
    ];
    let input = PackInput::DirInput { name: b"deep".to_vec(), entries: items };
    let container = pack_container(&stub, input, 19, None).unwrap();
    let entries = read_container(&container).unwrap().unwrap();
    let plan = plan_extraction(&entries, &None).unwrap();
    assert_eq!(plan.files.len(), 1);
    assert_eq!(plan.files[0].path, long_path);
    assert_eq!(plan.files[0].data, vec![42u8; 5000]);
}

#[test]
fn empty_stub_still_round_trips() {
    let stub: Vec<u8> = Vec::new();
    let input = PackInput::FileInput { name: b"only".to_vec(), data: Vec::new() };
    let container = pack_container(&stub, input, 3, None).unwrap();
    let entries = read_container(&container).unwrap().unwrap();
    assert_eq!(entries.len(), 1);
    assert_eq!(entries[0].path, b"only".to_vec());
    assert_eq!(entries[0].data, Vec::<u8>::new());
}
