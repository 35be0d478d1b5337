use std::io::Cursor;
use std::io::Write;

use scaii_get::error::Error;
use scaii_get::util::CdManager;
use scaii_get::util::FsAction;
use scaii_get::util::UnpackPlan;
use scaii_get::util::unzip;
use zip::write::FileOptions;
use zip::write::ZipWriter;

fn seg(parts: &[&str]) -> Vec<String> {
    parts.iter().map(|p| p.to_string()).collect()
}

/// Packs the given (name, contents) pairs into an in-memory zip; an entry
/// with no contents is written as a directory entry.
fn pack(entries: &[(&str, Option<&[u8]>)]) -> Vec<u8> {
    let mut w = ZipWriter::new(Cursor::new(Vec::new()));
    for (name, data) in entries {
        match data {
            Some(bytes) => {
                w.start_file(*name, FileOptions::default()).unwrap();
                w.write_all(bytes).unwrap();
            }
            None => {
                w.add_directory(name.trim_end_matches('/'), FileOptions::default()).unwrap();
            }
        }
    }
    w.finish().unwrap().into_inner()
}

fn files_of(plan: &UnpackPlan) -> Vec<(Vec<String>, Vec<u8>)> {
    let mut out = Vec::new();
    for act in &plan.actions {
        if let FsAction::WriteFile { path, data, .. } = act {
            out.push((path.clone(), data.clone()));
        }
    }
    out
}

fn dirs_of(plan: &UnpackPlan) -> Vec<Vec<String>> {
    let mut out = Vec::new();
    for act in &plan.actions {
        if let FsAction::MakeDir { path } = act {
            out.push(path.clone());
        }
    }
    out
}

#[test]
fn round_trip_reproduces_the_file_set() {
    // Packing a tree and unpacking it without flattening gives back the
    // same relative file set and the same bytes.
    let tree: &[(&str, Option<&[u8]>)] = &[
        ("dir/", None),
        ("dir/a.txt", Some(b"hello world")),
        ("dir/nested/b.bin", Some(&[0u8, 1, 2, 3, 255])),
        ("top.txt", Some(b"")),
    ];
    let bytes = pack(tree);
    let mut cd = CdManager::new(seg(&["dest"]));
    let plan = unzip(&bytes, &mut cd, false).unwrap();

    assert_eq!(plan.entry_count, 4);
    assert_eq!(cd.clone_inner(), seg(&["dest"]));

    let files = files_of(&plan);
    assert_eq!(
        files,
        vec![
            (seg(&["dest", "dir", "a.txt"]), b"hello world".to_vec()),
            (seg(&["dest", "dir", "nested", "b.bin"]), vec![0u8, 1, 2, 3, 255]),
            (seg(&["dest", "top.txt"]), Vec::new()),
        ]
    );
    assert_eq!(dirs_of(&plan), vec![seg(&["dest", "dir"])]);
}

#[test]
fn flatten_strips_the_shared_top_level_directory() {
    let tree: &[(&str, Option<&[u8]>)] = &[
        ("libfoo-1.0/", None),
        ("libfoo-1.0/a.txt", Some(b"aaa")),
        ("libfoo-1.0/sub/", None),
        ("libfoo-1.0/sub/b.txt", Some(b"bbb")),
    ];
    let bytes = pack(tree);
    let mut cd = CdManager::new(seg(&["d"]));
    let plan = unzip(&bytes, &mut cd, true).unwrap();

    assert_eq!(
        files_of(&plan),
        vec![
            (seg(&["d", "a.txt"]), b"aaa".to_vec()),
            (seg(&["d", "sub", "b.txt"]), b"bbb".to_vec()),
        ]
    );
    assert_eq!(dirs_of(&plan), vec![seg(&["d", "sub"])]);
}

#[test]
fn flatten_rejects_an_entry_outside_the_shared_directory() {
    let tree: &[(&str, Option<&[u8]>)] =
        &[("libfoo/a.txt", Some(b"a")), ("other/b.txt", Some(b"b"))];
    let bytes = pack(tree);
    let mut cd = CdManager::new(seg(&["d"]));
    let r = unzip(&bytes, &mut cd, true);
    assert!(matches!(r, Err(Error::UnexpectedArchiveLayout)));
    assert_eq!(cd.clone_inner(), seg(&["d"]));
}

#[test]
fn corrupt_payload_is_rejected() {
    let mut cd = CdManager::new(seg(&["d"]));
    let r = unzip(b"this is not a zip archive", &mut cd, false);
    assert!(matches!(r, Err(Error::CorruptArchive)));
    assert_eq!(cd.clone_inner(), seg(&["d"]));
}

#[test]
fn zero_entry_archive_succeeds_trivially() {
    let bytes = pack(&[]);
    let mut cd = CdManager::new(seg(&["d"]));
    let plan = unzip(&bytes, &mut cd, true).unwrap();
    assert_eq!(plan.entry_count, 0);
    assert!(plan.actions.is_empty());
}

#[test]
fn adversarial_names_stay_inside_the_destination() {
    let tree: &[(&str, Option<&[u8]>)] = &[
        ("../../outside.txt", Some(b"escape")),
        ("/etc/passwd", Some(b"root")),
        ("ok/../sneaky.txt", Some(b"s")),
        ("..\\..\\evil.txt", Some(b"bs")),
        ("C:\\drive.txt", Some(b"dr")),
    ];
    let bytes = pack(tree);
    let dest = seg(&["safe", "dest"]);
    let mut cd = CdManager::new(dest.clone());
    let plan = unzip(&bytes, &mut cd, false).unwrap();
    for (path, _) in files_of(&plan) {
        assert!(path.len() > dest.len());
        assert_eq!(&path[..dest.len()], &dest[..]);
        for extra in &path[dest.len()..] {
            assert!(!extra.is_empty());
            assert_ne!(extra, "..");
            assert_ne!(extra, ".");
            assert!(!extra.contains('/'));
            assert!(!extra.contains('\\'));
            assert!(!extra.contains(':'));
        }
    }
    assert_eq!(
        files_of(&plan),
        vec![
            (seg(&["safe", "dest", "outside.txt"]), b"escape".to_vec()),
            (seg(&["safe", "dest", "etc", "passwd"]), b"root".to_vec()),
            (seg(&["safe", "dest", "ok", "sneaky.txt"]), b"s".to_vec()),
            (seg(&["safe", "dest", "evil.txt"]), b"bs".to_vec()),
            (seg(&["safe", "dest", "drive.txt"]), b"dr".to_vec()),
        ]
    );
}

fn le16(v: u16) -> [u8; 2] {
    v.to_le_bytes()
}

fn le32(v: u32) -> [u8; 4] {
    v.to_le_bytes()
}

#[test]
fn aes_marked_entry_is_reported_as_corrupt() {
    // A central-directory entry carrying a well-formed AES extra-data
    // block while its encryption flag is clear: opened unscreened, such an
    // entry aborts inside the archive reader (this build has no AES
    // support), so the library must reject the payload before ever opening
    // it. The archive itself parses fine, so the rejection is the screen's.
    let z = build_archive_with_extra(0, &aes_extra_block());

    let mut parsed = zip::ZipArchive::new(Cursor::new(&z[..])).unwrap();
    assert_eq!(parsed.len(), 1);

    let mut cd = CdManager::new(seg(&["d"]));
    let r = unzip(&z, &mut cd, false);
    assert!(matches!(r, Err(Error::CorruptArchive)));
    assert_eq!(cd.clone_inner(), seg(&["d"]));
}

#[test]
fn zip64_block_cannot_smuggle_an_aes_entry_past_the_screen() {
    // A zip64 block declared with length zero, in an entry whose central
    // compressed size is the zip64 sentinel: the archive reader consumes
    // eight size bytes past the declared length without rewinding, so a
    // walk that trusted declared lengths would read the eight filler bytes
    // as a block header and jump clean over the AES block that follows.
    // The screen therefore rejects the zip64 block itself.
    let mut extra: Vec<u8> = Vec::new();
    extra.extend_from_slice(&le16(0x0001)); // zip64 block id
    extra.extend_from_slice(&le16(0)); // declared length: zero
    // Eight filler bytes, consumed by the reader as the 64-bit compressed
    // size; their first four read as a block header whose length jumps
    // past the AES block below.
    extra.extend_from_slice(&[0x42, 0x42, 0x0f, 0x00, 0x00, 0x00, 0x00, 0x00]);
    extra.extend_from_slice(&aes_extra_block());
    let z = build_archive_with_extra(0xFFFF_FFFF, &extra);

    let mut parsed = zip::ZipArchive::new(Cursor::new(&z[..])).unwrap();
    assert_eq!(parsed.len(), 1);

    let mut cd = CdManager::new(seg(&["d"]));
    let r = unzip(&z, &mut cd, false);
    assert!(matches!(r, Err(Error::CorruptArchive)));
    assert_eq!(cd.clone_inner(), seg(&["d"]));
}

/// A well-formed AES extra-data block (id 0x9901) declaring a stored
/// entry, as a central-directory extra field fragment.
fn aes_extra_block() -> Vec<u8> {
    let mut b: Vec<u8> = Vec::new();
    b.extend_from_slice(&le16(0x9901)); // AES extra block id
    b.extend_from_slice(&le16(7)); // block length
    b.extend_from_slice(&le16(2)); // vendor version
    b.extend_from_slice(&le16(0x4541)); // vendor id "AE"
    b.push(1); // AES-128 strength
    b.extend_from_slice(&le16(0)); // declared real method: stored
    b
}

/// A hand-assembled one-entry archive: an empty stored file named "a"
/// whose encryption flag is clear, with the given central-directory
/// compressed size and extra field.
fn build_archive_with_extra(compressed_size: u32, extra: &[u8]) -> Vec<u8> {
    let mut z: Vec<u8> = Vec::new();
    // Local file header.
    z.extend_from_slice(&[0x50, 0x4b, 0x03, 0x04]);
    z.extend_from_slice(&le16(20)); // version needed
    z.extend_from_slice(&le16(0)); // flags: not encrypted
    z.extend_from_slice(&le16(0)); // method: stored
    z.extend_from_slice(&le16(0)); // modification time
    z.extend_from_slice(&le16(0)); // modification date
    z.extend_from_slice(&le32(0)); // crc32
    z.extend_from_slice(&le32(0)); // compressed size
    z.extend_from_slice(&le32(0)); // uncompressed size
    z.extend_from_slice(&le16(1)); // name length
    z.extend_from_slice(&le16(0)); // extra length
    z.push(b'a');
    let cd_offset = z.len() as u32;
    // Central directory entry.
    z.extend_from_slice(&[0x50, 0x4b, 0x01, 0x02]);
    z.extend_from_slice(&le16(20)); // version made by
    z.extend_from_slice(&le16(20)); // version needed
    z.extend_from_slice(&le16(0)); // flags: encryption bit clear
    z.extend_from_slice(&le16(0)); // method: stored
    z.extend_from_slice(&le16(0)); // modification time
    z.extend_from_slice(&le16(0)); // modification date
    z.extend_from_slice(&le32(0)); // crc32
    z.extend_from_slice(&le32(compressed_size));
    z.extend_from_slice(&le32(0)); // uncompressed size
    z.extend_from_slice(&le16(1)); // name length
    z.extend_from_slice(&le16(extra.len() as u16)); // extra length
    z.extend_from_slice(&le16(0)); // comment length
    z.extend_from_slice(&le16(0)); // disk number
    z.extend_from_slice(&le16(0)); // internal attributes
    z.extend_from_slice(&le32(0)); // external attributes
    z.extend_from_slice(&le32(0)); // local header offset
    z.push(b'a');
    z.extend_from_slice(extra);
    let cd_size = z.len() as u32 - cd_offset;
    // End of central directory.
    z.extend_from_slice(&[0x50, 0x4b, 0x05, 0x06]);
    z.extend_from_slice(&le16(0)); // disk number
    z.extend_from_slice(&le16(0)); // central directory disk
    z.extend_from_slice(&le16(1)); // entries on this disk
    z.extend_from_slice(&le16(1)); // entries in total
    z.extend_from_slice(&le32(cd_size));
    z.extend_from_slice(&le32(cd_offset));
    z.extend_from_slice(&le16(0)); // comment length
    z
}
