use sfx_archive::args::parse_args;
use sfx_archive::config::{build_config, parse_config, trim};
use sfx_archive::entries::Entry;
use sfx_archive::extract::{default_dir_of, list_paths, plan_extraction};

fn args_of(words: &[&str]) -> Vec<Vec<u8>> {
    words.iter().map(|w| w.as_bytes().to_vec()).collect()
}

#[test]
fn parse_args_all_options() {
    let c = parse_args(&args_of(&["prog", "-o", "out", "-l", "-v"]));
    assert_eq!(c.target_dir, Some(b"out".to_vec()));
    assert!(c.list_only);
    assert!(c.verbose);
    assert!(!c.show_help);
}

#[test]
fn parse_args_long_forms_and_unknown() {
    let c = parse_args(&args_of(&["prog", "--list", "mystery", "--help", "--verbose"]));
    assert!(c.list_only);
    assert!(c.show_help);
    assert!(c.verbose);
    assert_eq!(c.target_dir, None);
}

#[test]
fn parse_args_output_without_value() {
    let c = parse_args(&args_of(&["prog", "-o"]));
    assert_eq!(c.target_dir, None);
    let c = parse_args(&args_of(&["prog", "--output", "dir1", "-o", "dir2"]));
    assert_eq!(c.target_dir, Some(b"dir2".to_vec()));
}

#[test]
fn parse_args_empty_and_bare() {
    let c = parse_args(&Vec::new());
    assert_eq!(c.target_dir, None);
    assert!(!c.list_only && !c.show_help && !c.verbose);
    let c = parse_args(&args_of(&["prog"]));
    assert!(!c.list_only && !c.show_help && !c.verbose);
}

#[test]
fn config_lines_are_trimmed_and_split_on_first_equals() {
    let cfg = parse_config(&b" exec = tar -xf x=y \nignored line\nweird=1\n dir =  there".to_vec());
    assert_eq!(cfg.exec_cmd, Some(b"tar -xf x=y".to_vec()));
    assert_eq!(cfg.dir_name, Some(b"there".to_vec()));
}

#[test]
fn config_later_lines_override() {
    let cfg = parse_config(&b"dir=one\ndir=two\n".to_vec());
    assert_eq!(cfg.dir_name, Some(b"two".to_vec()));
    assert_eq!(cfg.exec_cmd, None);
}

#[test]
fn config_build_then_parse_round_trips() {
    let built = build_config(&Some(b"echo done".to_vec()), &Some(b"proj".to_vec()));
    assert_eq!(built, b"exec=echo done\ndir=proj\n".to_vec());
    let cfg = parse_config(&built);
    assert_eq!(cfg.exec_cmd, Some(b"echo done".to_vec()));
    assert_eq!(cfg.dir_name, Some(b"proj".to_vec()));
    assert_eq!(build_config(&None, &None), Vec::<u8>::new());
}

#[test]
fn trim_removes_surrounding_whitespace_only() {
    assert_eq!(trim(&b"  a b \t\r".to_vec()), b"a b".to_vec());
    assert_eq!(trim(&b"".to_vec()), Vec::<u8>::new());
    assert_eq!(trim(&b" \t ".to_vec()), Vec::<u8>::new());
    assert_eq!(trim(&b"x".to_vec()), b"x".to_vec());
}

fn sample_entries() -> Vec<Entry> {
    vec![
        Entry { path: b"__sfx_config".to_vec(), is_dir: false, data: b"dir=proj\n".to_vec() },
        Entry { path: b"a.txt".to_vec(), is_dir: false, data: b"a".to_vec() },
        Entry { path: b"d".to_vec(), is_dir: true, data: Vec::new() },
    ]
}

#[test]
fn list_mode_names_everything_but_config() {
    let paths = list_paths(&sample_entries());
    assert_eq!(paths, vec![b"a.txt".to_vec(), b"d".to_vec()]);
}

#[test]
fn help_peek_reads_leading_config_only() {
    assert_eq!(default_dir_of(&sample_entries()), Some(b"proj".to_vec()));
    let mut swapped = sample_entries();
    swapped.swap(0, 1);
    assert_eq!(default_dir_of(&swapped), None);
    assert_eq!(default_dir_of(&Vec::new()), None);
}

#[test]
fn dir_directive_after_first_file_does_not_retarget() {
    // The target is resolved when the first user entry is written; a config
    // entry arriving later in the stream cannot move it any more.
    let entries = vec![
        Entry { path: b"early.txt".to_vec(), is_dir: false, data: b"e".to_vec() },
        Entry { path: b"__sfx_config".to_vec(), is_dir: false, data: b"dir=late\n".to_vec() },
        Entry { path: b"late.txt".to_vec(), is_dir: false, data: b"l".to_vec() },
    ];
    let plan = plan_extraction(&entries, &None).unwrap();
    assert_eq!(plan.target_dir, b".".to_vec());
    assert_eq!(plan.files.len(), 2);
}

#[test]
fn exec_directive_counts_wherever_it_appears() {
    let entries = vec![
        Entry { path: b"f".to_vec(), is_dir: false, data: b"x".to_vec() },
        Entry { path: b"__sfx_config".to_vec(), is_dir: false, data: b"exec=ls\n".to_vec() },
    ];
    let plan = plan_extraction(&entries, &None).unwrap();
    assert_eq!(plan.exec_cmd, Some(b"ls".to_vec()));
}

#[test]
fn help_peek_takes_first_dir_line() {
    let entries = vec![Entry {
        path: b"__sfx_config".to_vec(),
        is_dir: false,
        data: b"dir=one\ndir=two\n".to_vec(),
    }];
    // The peek reports the first match; full extraction lets later lines win.
    assert_eq!(default_dir_of(&entries), Some(b"one".to_vec()));
    let plan = plan_extraction(&entries, &None).unwrap();
    assert_eq!(plan.target_dir, b"two".to_vec());
}

#[test]
fn non_utf8_config_yields_no_peek_and_corrupts_extraction() {
    let entries = vec![
        Entry {
            path: b"__sfx_config".to_vec(),
            is_dir: false,
            data: b"dir=\xff\xfe\n".to_vec(),
        },
        Entry { path: b"f".to_vec(), is_dir: false, data: b"x".to_vec() },
    ];
    assert_eq!(default_dir_of(&entries), None);
    assert!(matches!(
        plan_extraction(&entries, &None),
        Err(sfx_archive::errors::SfxError::CorruptArchive)
    ));
}

#[test]
fn escaping_paths_are_listed_but_never_planned() {
    let entries = vec![
        Entry { path: b"../evil".to_vec(), is_dir: false, data: b"e".to_vec() },
        Entry { path: b"/abs".to_vec(), is_dir: false, data: b"a".to_vec() },
        Entry { path: b"sub/../also".to_vec(), is_dir: false, data: b"s".to_vec() },
        Entry { path: b"ok.txt".to_vec(), is_dir: false, data: b"o".to_vec() },
    ];
    // Listing names every non-config entry; the plan writes only confined paths.
    let listed = list_paths(&entries);
    assert_eq!(listed.len(), 4);
    let plan = plan_extraction(&entries, &None).unwrap();
    assert_eq!(plan.files.len(), 1);
    assert_eq!(plan.files[0].path, b"ok.txt".to_vec());
}
