use piney::archive::{check_entries_wf, check_entry_wf, pack_entries, parse_entries, TarEntry};
use piney::protect::{basename, is_protected, top_name};

fn file(path: &str, data: &[u8]) -> TarEntry {
    TarEntry { path: path.as_bytes().to_vec(), is_dir: false, data: data.to_vec() }
}

fn dir(path: &str) -> TarEntry {
    TarEntry { path: path.as_bytes().to_vec(), is_dir: true, data: Vec::new() }
}

#[test]
fn protected_names_match_both_ways() {
    assert!(is_protected(b"config.yml"));
    assert!(is_protected(b".jwt_secret"));
    assert!(is_protected(b"temp"));
    assert!(!is_protected(b"cards"));
    assert!(!is_protected(b"config.yml.bak"));
    assert!(!is_protected(b"Config.yml"));
}

#[test]
fn basename_and_top_name_split_paths() {
    assert_eq!(basename(b"cards/a.json"), b"a.json".to_vec());
    assert_eq!(basename(b"a/b/c.txt"), b"c.txt".to_vec());
    assert_eq!(basename(b"plain"), b"plain".to_vec());
    assert_eq!(top_name(b"cards/a.json"), b"cards".to_vec());
    assert_eq!(top_name(b"a/b/c.txt"), b"a".to_vec());
    assert_eq!(top_name(b"plain"), b"plain".to_vec());
}

#[test]
fn entry_well_formedness_is_checked() {
    assert!(check_entry_wf(&file("cards/a.json", b"x")));
    assert!(check_entry_wf(&dir("cards")));
    assert!(!check_entry_wf(&file("", b"x")));
    assert!(!check_entry_wf(&file(&"n".repeat(101), b"x")));
    assert!(!check_entry_wf(&file("cards/", b"x")));
    let mut nul = file("bad", b"x");
    nul.path = b"ba\0d".to_vec();
    assert!(!check_entry_wf(&nul));
    let mut d = dir("cards");
    d.data = b"oops".to_vec();
    assert!(!check_entry_wf(&d));
}

#[test]
fn pack_then_parse_reproduces_entries() {
    let entries = vec![
        dir("cards"),
        file("cards/a.json", b"{\"name\":\"a\"}"),
        file("notes.txt", &vec![7u8; 600]),
        file("empty.bin", b""),
    ];
    assert!(check_entries_wf(&entries));
    let bytes = pack_entries(&entries);
    assert_eq!(bytes.len() % 512, 0);
    let parsed = parse_entries(&bytes).expect("own archive must parse");
    assert_eq!(parsed.len(), entries.len());
    for (p, e) in parsed.iter().zip(entries.iter()) {
        assert_eq!(p.path, e.path);
        assert_eq!(p.is_dir, e.is_dir);
        assert_eq!(p.data, e.data);
    }
}

#[test]
fn packed_archive_is_readable_by_tar_crate() {
    let entries = vec![
        dir("cards"),
        file("cards/a.json", b"0123456789"),
        file("top.txt", &vec![42u8; 513]),
    ];
    let bytes = pack_entries(&entries);
    let mut ar = tar::Archive::new(&bytes[..]);
    let mut seen: Vec<(Vec<u8>, bool, Vec<u8>)> = Vec::new();
    for entry in ar.entries().expect("entries") {
        let mut entry = entry.expect("tar crate must accept our headers");
        let path = entry.path_bytes().to_vec();
        let is_dir = entry.header().entry_type().is_dir();
        let mut data = Vec::new();
        std::io::Read::read_to_end(&mut entry, &mut data).expect("data");
        seen.push((path, is_dir, data));
    }
    assert_eq!(seen.len(), 3);
    assert_eq!(seen[0], (b"cards".to_vec(), true, Vec::new()));
    assert_eq!(seen[1], (b"cards/a.json".to_vec(), false, b"0123456789".to_vec()));
    assert_eq!(seen[2], (b"top.txt".to_vec(), false, vec![42u8; 513]));
}

#[test]
fn tar_crate_archive_is_parsed() {
    let mut builder = tar::Builder::new(Vec::new());
    let mut h = tar::Header::new_ustar();
    h.set_path("cards/b.json").unwrap();
    h.set_size(5);
    h.set_mode(0o644);
    h.set_mtime(0);
    h.set_cksum();
    builder.append(&h, &b"hello"[..]).unwrap();
    let mut hd = tar::Header::new_ustar();
    hd.set_path("uploads/").unwrap();
    hd.set_size(0);
    hd.set_mode(0o755);
    hd.set_mtime(0);
    hd.set_entry_type(tar::EntryType::dir());
    hd.set_cksum();
    builder.append(&hd, &b""[..]).unwrap();
    let bytes = builder.into_inner().unwrap();
    let parsed = parse_entries(&bytes).expect("tar crate output must parse");
    assert_eq!(parsed.len(), 2);
    assert_eq!(parsed[0].path, b"cards/b.json".to_vec());
    assert!(!parsed[0].is_dir);
    assert_eq!(parsed[0].data, b"hello".to_vec());
    assert_eq!(parsed[1].path, b"uploads".to_vec());
    assert!(parsed[1].is_dir);
}

#[test]
fn empty_input_is_an_empty_archive() {
    let parsed = parse_entries(&[]).expect("empty input reads as empty archive");
    assert!(parsed.is_empty());
}

#[test]
fn zero_blocks_terminate_the_archive() {
    let parsed = parse_entries(&vec![0u8; 1024]).expect("end marker alone");
    assert!(parsed.is_empty());
    let mut with_junk = vec![0u8; 512];
    with_junk.extend_from_slice(&[0xABu8; 700]);
    let parsed = parse_entries(&with_junk).expect("bytes after the end marker are ignored");
    assert!(parsed.is_empty());
}

#[test]
fn garbage_is_rejected() {
    assert!(parse_entries(&vec![0x41u8; 1024]).is_none());
    assert!(parse_entries(&vec![1u8; 100]).is_none());
}

#[test]
fn corrupted_checksum_is_rejected() {
    let entries = vec![file("a.txt", b"abc")];
    let mut bytes = pack_entries(&entries);
    bytes[150] ^= 1;
    assert!(parse_entries(&bytes).is_none());
}

#[test]
fn truncated_member_data_is_rejected() {
    let entries = vec![file("big.bin", &vec![9u8; 2000])];
    let bytes = pack_entries(&entries);
    let cut = &bytes[..512 + 100];
    assert!(parse_entries(cut).is_none());
}
