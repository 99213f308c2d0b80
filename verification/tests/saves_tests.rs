use gladesync::saves::{
    find_save_dir, get_latest_save_info, latest_of, plan_extraction, read_latest_save, zip_dir,
    EntryKind, FileStat, GladeStats, SaveDirCandidate, SaveInfo, WalkEntry,
};
use std::io::Write;

fn walk(rel: Option<&str>, kind: EntryKind, data: Option<&[u8]>) -> WalkEntry {
    WalkEntry { rel_path: rel.map(|s| s.to_string()), kind, data: data.map(|d| d.to_vec()) }
}

#[test]
fn latest_is_the_first_greatest() {
    assert_eq!(latest_of(&vec![]), None);
    assert_eq!(latest_of(&vec![None, None]), None);
    assert_eq!(latest_of(&vec![Some(3), None, Some(5), Some(5), Some(1)]), Some(2));
    assert_eq!(latest_of(&vec![None, Some(0)]), Some(1));
}

#[test]
fn save_dir_is_the_most_recent_account() {
    let c = vec![
        SaveDirCandidate { saves_path: "Steam/111/saves".to_string(), mtime: 10 },
        SaveDirCandidate { saves_path: "Steam/222/saves".to_string(), mtime: 30 },
        SaveDirCandidate { saves_path: "Steam/333/saves".to_string(), mtime: 30 },
    ];
    assert_eq!(find_save_dir(&c), Some("Steam/222/saves".to_string()));
    assert_eq!(find_save_dir(&vec![]), None);
}

#[test]
fn latest_glade_uses_the_newest_file() {
    let glades = vec![
        GladeStats { name: "old".to_string(), files: vec![FileStat { size: 5, mtime: Some(100) }] },
        GladeStats { name: "empty".to_string(), files: vec![] },
        GladeStats {
            name: "new".to_string(),
            files: vec![
                FileStat { size: 10, mtime: Some(50) },
                FileStat { size: 20, mtime: None },
                FileStat { size: 30, mtime: Some(200) },
            ],
        },
        GladeStats { name: "tie".to_string(), files: vec![FileStat { size: 1, mtime: Some(200) }] },
    ];
    let info = get_latest_save_info(&glades).unwrap();
    assert_eq!(info.name, "new");
    assert_eq!(info.mtime, 200);
    assert_eq!(info.size, 60);
    let none = vec![GladeStats { name: "x".to_string(), files: vec![FileStat { size: 3, mtime: None }] }];
    assert!(get_latest_save_info(&none).is_none());
}

#[test]
fn packing_and_unpacking_a_glade() {
    let entries = vec![
        walk(Some(""), EntryKind::Dir, None),
        walk(Some("sub"), EntryKind::Dir, None),
        walk(Some("sub\\a.txt"), EntryKind::File, Some(b"alpha")),
        walk(Some("history.json"), EntryKind::File, Some(b"{}")),
        walk(Some("link"), EntryKind::Other, None),
    ];
    let bytes = zip_dir(&entries).expect("packs");
    let steps = plan_extraction(bytes).expect("unpacks");
    let got: Vec<(String, bool, Option<Vec<u8>>)> =
        steps.into_iter().map(|s| (s.path, s.is_dir, s.data)).collect();
    assert_eq!(
        got,
        vec![
            ("sub/".to_string(), true, None),
            ("sub/a.txt".to_string(), false, Some(b"alpha".to_vec())),
            ("history.json".to_string(), false, Some(b"{}".to_vec())),
        ]
    );
}

#[test]
fn packing_fails_on_unreadable_entries() {
    assert!(zip_dir(&vec![walk(None, EntryKind::File, Some(b"x"))]).is_none());
    assert!(zip_dir(&vec![walk(Some("a"), EntryKind::File, None)]).is_none());
    assert!(zip_dir(&vec![walk(Some("a"), EntryKind::Other, None)]).is_some());
}

#[test]
fn unpacking_skips_escaping_names_and_rejects_garbage() {
    assert!(plan_extraction(b"definitely not a zip".to_vec()).is_none());
    let mut cursor = std::io::Cursor::new(Vec::new());
    {
        let mut w = zip::ZipWriter::new(&mut cursor);
        w.start_file("../evil.txt", zip::write::FileOptions::default()).unwrap();
        w.write_all(b"bad").unwrap();
        w.start_file("good.txt", zip::write::FileOptions::default()).unwrap();
        w.write_all(b"ok").unwrap();
        w.finish().unwrap();
    }
    let steps = plan_extraction(cursor.into_inner()).unwrap();
    assert_eq!(steps.len(), 1);
    assert_eq!(steps[0].path, "good.txt");
    assert_eq!(steps[0].data, Some(b"ok".to_vec()));
}

#[test]
fn reading_the_latest_save() {
    let entries = vec![walk(Some(""), EntryKind::Dir, None), walk(Some("f"), EntryKind::File, Some(b"1"))];
    assert!(read_latest_save(None, &entries).is_none());
    let info = SaveInfo { name: "uuid-1".to_string(), mtime: 9, size: 1 };
    let (name, bytes) = read_latest_save(Some(info), &entries).unwrap();
    assert_eq!(name, "uuid-1");
    assert_eq!(bytes, zip_dir(&entries).unwrap());
}

#[test]
fn packing_empty_files_and_bare_directories() {
    let entries = vec![
        walk(Some(""), EntryKind::Dir, None),
        walk(Some("empty.bin"), EntryKind::File, Some(b"")),
        walk(Some("d"), EntryKind::Dir, None),
        walk(Some("d\\e"), EntryKind::Dir, None),
        walk(Some("last.txt"), EntryKind::File, Some(b"z")),
    ];
    let bytes = zip_dir(&entries).expect("packs");
    let steps = plan_extraction(bytes).expect("unpacks");
    let got: Vec<(String, bool, Option<Vec<u8>>)> =
        steps.into_iter().map(|s| (s.path, s.is_dir, s.data)).collect();
    assert_eq!(
        got,
        vec![
            ("empty.bin".to_string(), false, Some(Vec::new())),
            ("d/".to_string(), true, None),
            ("d/e/".to_string(), true, None),
            ("last.txt".to_string(), false, Some(b"z".to_vec())),
        ]
    );
}

fn push16(v: &mut Vec<u8>, x: u16) {
    v.extend_from_slice(&x.to_le_bytes());
}

fn push32(v: &mut Vec<u8>, x: u32) {
    v.extend_from_slice(&x.to_le_bytes());
}

#[test]
fn an_entry_claiming_aes_without_encryption_is_skipped() {
    let name = b"trap.txt";
    let mut z: Vec<u8> = Vec::new();
    push32(&mut z, 0x04034b50);
    for x in [20u16, 0, 0, 0, 0] {
        push16(&mut z, x);
    }
    for _ in 0..3 {
        push32(&mut z, 0);
    }
    push16(&mut z, name.len() as u16);
    push16(&mut z, 0);
    z.extend_from_slice(name);
    let cd_start = z.len() as u32;
    push32(&mut z, 0x02014b50);
    for x in [20u16, 20, 0, 0, 0, 0] {
        push16(&mut z, x);
    }
    for _ in 0..3 {
        push32(&mut z, 0);
    }
    push16(&mut z, name.len() as u16);
    push16(&mut z, 11);
    for x in [0u16, 0, 0] {
        push16(&mut z, x);
    }
    push32(&mut z, 0);
    push32(&mut z, 0);
    z.extend_from_slice(name);
    z.extend_from_slice(&[0x01, 0x99, 0x07, 0x00, 0x02, 0x00, 0x41, 0x45, 0x03, 0x00, 0x00]);
    let cd_size = z.len() as u32 - cd_start;
    push32(&mut z, 0x06054b50);
    for x in [0u16, 0, 1, 1] {
        push16(&mut z, x);
    }
    push32(&mut z, cd_size);
    push32(&mut z, cd_start);
    push16(&mut z, 0);
    let steps = plan_extraction(z).expect("the archive itself opens");
    assert!(steps.is_empty());
}
