use std::collections::HashMap;

use piney::archive::{pack_entries, TarEntry};
use piney::errors::BackupError;
use piney::export::export_archive;
use piney::gz::{decode_archive, ArchiveFormat};
use piney::restore::{apply_import, plan_wipe};

fn file(path: &str, data: &[u8]) -> TarEntry {
    TarEntry { path: path.as_bytes().to_vec(), is_dir: false, data: data.to_vec() }
}

fn as_map(entries: &[TarEntry]) -> HashMap<Vec<u8>, (bool, Vec<u8>)> {
    let mut m = HashMap::new();
    for e in entries {
        m.insert(e.path.clone(), (e.is_dir, e.data.clone()));
    }
    m
}

fn gzip(bytes: &[u8]) -> Vec<u8> {
    let mut enc = flate2::write::GzEncoder::new(Vec::new(), flate2::Compression::default());
    std::io::Write::write_all(&mut enc, bytes).unwrap();
    enc.finish().unwrap()
}

#[test]
fn plain_tar_uploads_are_sniffed_as_tar() {
    let bytes = pack_entries(&vec![file("cards/a.json", b"x")]);
    let (format, entries) = decode_archive(&bytes).expect("valid tar");
    assert_eq!(format, ArchiveFormat::Tar);
    assert_eq!(entries.len(), 1);
    assert_eq!(entries[0].path, b"cards/a.json".to_vec());
}

#[test]
fn gzipped_tar_uploads_are_sniffed_as_targz() {
    let bytes = pack_entries(&vec![file("cards/a.json", b"abcdef")]);
    let wrapped = gzip(&bytes);
    let (format, entries) = decode_archive(&wrapped).expect("valid gzip+tar");
    assert_eq!(format, ArchiveFormat::TarGz);
    assert_eq!(entries.len(), 1);
    assert_eq!(entries[0].data, b"abcdef".to_vec());
}

#[test]
fn invalid_uploads_are_rejected_without_effect() {
    let garbage = vec![0x5Au8; 900];
    assert!(matches!(decode_archive(&garbage), Err(BackupError::InvalidArchive)));
    let mut gz_junk = vec![0x1Fu8, 0x8B];
    gz_junk.extend_from_slice(&[0x77u8; 200]);
    assert!(matches!(decode_archive(&gz_junk), Err(BackupError::InvalidArchive)));
    let gzipped_garbage = gzip(&vec![0x5Au8; 900]);
    assert!(matches!(decode_archive(&gzipped_garbage), Err(BackupError::InvalidArchive)));
    let dir = vec![file("config.yml", b"keep")];
    match apply_import(&dir, &garbage) {
        Err(BackupError::InvalidArchive) => {}
        other => panic!("import of garbage must fail cleanly, got {:?}", other.is_ok()),
    }
}

#[test]
fn import_preserves_protected_files_against_malicious_entries() {
    let dir = vec![
        file("config.yml", b"original-config"),
        file(".jwt_secret", b"original-secret"),
        file("temp/stale.tmp", b"scratch"),
        file("cards/old.json", b"old"),
    ];
    let upload = pack_entries(&vec![
        file("cards/b.json", b"new-card"),
        file("config.yml", b"evil-config"),
        file(".jwt_secret", b"evil-secret"),
    ]);
    let result = apply_import(&dir, &upload).expect("valid archive");
    let m = as_map(&result);
    assert_eq!(m[&b"config.yml".to_vec()].1, b"original-config".to_vec());
    assert_eq!(m[&b".jwt_secret".to_vec()].1, b"original-secret".to_vec());
    assert_eq!(m[&b"temp/stale.tmp".to_vec()].1, b"scratch".to_vec());
    assert_eq!(m[&b"cards/b.json".to_vec()].1, b"new-card".to_vec());
    assert!(!m.contains_key(&b"cards/old.json".to_vec()));
}

#[test]
fn protected_named_entries_are_never_written_even_into_an_empty_directory() {
    let dir: Vec<TarEntry> = Vec::new();
    let upload = pack_entries(&vec![
        file("config.yml", b"evil"),
        file("cards/b.json", b"fine"),
        file("cards/.jwt_secret", b"sneaky"),
    ]);
    let result = apply_import(&dir, &upload).expect("valid archive");
    let m = as_map(&result);
    assert_eq!(m.len(), 1);
    assert_eq!(m[&b"cards/b.json".to_vec()].1, b"fine".to_vec());
}

#[test]
fn importing_twice_yields_the_same_directory() {
    let dir = vec![
        file("config.yml", b"cfg"),
        file("cards/old.json", b"old"),
        file("temp/t.tmp", b"t"),
    ];
    let upload = pack_entries(&vec![
        file("cards/b.json", b"b"),
        file("notes.txt", b"n"),
    ]);
    let once = apply_import(&dir, &upload).expect("first import");
    let twice = apply_import(&once, &upload).expect("second import");
    assert_eq!(as_map(&once), as_map(&twice));
}

#[test]
fn export_scenario_includes_only_unprotected_entries() {
    let dir = vec![
        file("cards/a.json", b"0123456789"),
        file("config.yml", b"cfg"),
        file(".jwt_secret", b"sec"),
        file("temp/stale.tmp", b"tmp"),
    ];
    let bytes = export_archive(&dir);
    let mut ar = tar::Archive::new(&bytes[..]);
    let mut names: Vec<Vec<u8>> = Vec::new();
    for entry in ar.entries().unwrap() {
        let mut entry = entry.unwrap();
        names.push(entry.path_bytes().to_vec());
        assert_eq!(entry.size(), 10);
        let mut data = Vec::new();
        std::io::Read::read_to_end(&mut entry, &mut data).unwrap();
        assert_eq!(data, b"0123456789".to_vec());
    }
    assert_eq!(names, vec![b"cards/a.json".to_vec()]);
}

#[test]
fn export_then_import_round_trips_unprotected_files() {
    let dir = vec![
        file("cards/a.json", b"aaa"),
        file("notes/n.txt", b"nnn"),
        file("config.yml", b"cfg"),
        file("temp/x", b"x"),
        file("cards/config.yml", b"nested-protected-name"),
    ];
    let bytes = export_archive(&dir);
    let empty: Vec<TarEntry> = Vec::new();
    let restored = apply_import(&empty, &bytes).expect("own export must import");
    let m = as_map(&restored);
    assert_eq!(m.len(), 2);
    assert_eq!(m[&b"cards/a.json".to_vec()].1, b"aaa".to_vec());
    assert_eq!(m[&b"notes/n.txt".to_vec()].1, b"nnn".to_vec());
}

#[test]
fn wipe_plan_spares_protected_names() {
    let names: Vec<Vec<u8>> = vec![
        b"cards".to_vec(),
        b"config.yml".to_vec(),
        b"temp".to_vec(),
        b"uploads".to_vec(),
        b".jwt_secret".to_vec(),
        b"piney.db".to_vec(),
    ];
    let doomed = plan_wipe(&names);
    assert_eq!(
        doomed,
        vec![b"cards".to_vec(), b"uploads".to_vec(), b"piney.db".to_vec()]
    );
}

#[test]
fn escaping_entry_paths_are_never_extracted() {
    let dir: Vec<TarEntry> = Vec::new();
    let upload = pack_entries(&vec![
        file("../escape.txt", b"evil"),
        file("cards/../../up.txt", b"evil"),
        file("cards/ok.json", b"fine"),
        file("..dots/are.fine", b"ok"),
    ]);
    let result = apply_import(&dir, &upload).expect("valid archive");
    let m = as_map(&result);
    assert_eq!(m.len(), 2);
    assert!(m.contains_key(&b"cards/ok.json".to_vec()));
    assert!(m.contains_key(&b"..dots/are.fine".to_vec()));
}
