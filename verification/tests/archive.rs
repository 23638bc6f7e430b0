use std::io::Read;

use unitypacker::archive::assemble;
use unitypacker::archive::is_valid_identifier;
use unitypacker::archive::EntryContent;
use unitypacker::scan::UnityMeta;

fn entry(guid: &str, path: &str, has_asset: bool) -> UnityMeta {
    UnityMeta {
        guid: guid.to_string(),
        path: path.to_string(),
        asset_file: if has_asset { Some(path.to_string()) } else { None },
        meta_file: format!("{}.meta", path),
    }
}

struct Member {
    name: String,
    declared_size: u64,
    content: Vec<u8>,
}

fn unpack(archive: &[u8]) -> Vec<Member> {
    let mut gz = flate2::read::GzDecoder::new(archive);
    let mut tar_bytes = Vec::new();
    gz.read_to_end(&mut tar_bytes).unwrap();
    let mut members = Vec::new();
    let mut ar = tar::Archive::new(&tar_bytes[..]);
    for e in ar.entries().unwrap() {
        let mut e = e.unwrap();
        let name = e.path().unwrap().to_str().unwrap().to_string();
        let declared_size = e.header().size().unwrap();
        let mut content = Vec::new();
        e.read_to_end(&mut content).unwrap();
        members.push(Member { name, declared_size, content });
    }
    members
}

#[test]
fn assemble_writes_the_package_layout() {
    let entries = vec![
        entry("37d6e1e5ec83e454eb86b47f81fe116a", "Assets/a.png", true),
        entry("80b54747fd9534ef3bf4f5dec0cb319a", "Assets/dir", false),
    ];
    let contents = vec![
        EntryContent {
            meta_content: b"meta one".to_vec(),
            asset_content: Some(b"payload bytes".to_vec()),
        },
        EntryContent { meta_content: b"meta two".to_vec(), asset_content: None },
    ];
    let bytes = assemble(&entries, &contents).unwrap();
    // A gzip stream is what comes out.
    assert_eq!(&bytes[0..2], &[0x1f, 0x8b]);

    let members = unpack(&bytes);
    let names: Vec<&str> = members.iter().map(|m| m.name.as_str()).collect();
    assert_eq!(
        names,
        vec![
            "37d6e1e5ec83e454eb86b47f81fe116a/pathname",
            "37d6e1e5ec83e454eb86b47f81fe116a/asset.meta",
            "37d6e1e5ec83e454eb86b47f81fe116a/asset",
            "80b54747fd9534ef3bf4f5dec0cb319a/pathname",
            "80b54747fd9534ef3bf4f5dec0cb319a/asset.meta",
        ],
    );
    assert_eq!(members[0].content, b"Assets/a.png".to_vec());
    assert_eq!(members[0].declared_size, "Assets/a.png".chars().count() as u64);
    assert_eq!(members[1].content, b"meta one".to_vec());
    assert_eq!(members[2].content, b"payload bytes".to_vec());
    assert_eq!(members[3].content, b"Assets/dir".to_vec());
    assert_eq!(members[4].content, b"meta two".to_vec());
}

#[test]
fn pathname_member_is_sized_by_character_count() {
    // A non-ASCII character makes the character count fall short of the
    // byte count; the member's declared size must follow the characters.
    let path = format!("Assets/caf{}.png", '\u{e9}');
    let entries = vec![entry("aaaa", &path, false)];
    let contents = vec![EntryContent { meta_content: b"m".to_vec(), asset_content: None }];
    let bytes = assemble(&entries, &contents).unwrap();

    let members = unpack(&bytes);
    let chars = path.chars().count() as u64;
    assert!(chars < path.len() as u64);
    assert_eq!(members[0].declared_size, chars);
    // The reader honours the declared size, so the trailing byte of the
    // encoding is not handed back.
    assert_eq!(members[0].content, path.as_bytes()[..chars as usize].to_vec());
}

#[test]
fn empty_scan_gives_an_empty_archive() {
    let bytes = assemble(&Vec::new(), &Vec::new()).unwrap();
    assert!(unpack(&bytes).is_empty());
}

#[test]
fn assembly_is_reproducible() {
    let entries = vec![entry("aaaa", "Assets/a.png", true)];
    let contents = vec![EntryContent {
        meta_content: b"meta".to_vec(),
        asset_content: Some(b"data".to_vec()),
    }];
    let first = assemble(&entries, &contents).unwrap();
    let second = assemble(&entries, &contents).unwrap();
    assert_eq!(first, second);
}

#[test]
fn identifier_validity() {
    assert!(is_valid_identifier("37d6e1e5ec83e454eb86b47f81fe116a"));
    assert!(is_valid_identifier(".hidden"));
    assert!(!is_valid_identifier(""));
    assert!(!is_valid_identifier("."));
    assert!(!is_valid_identifier(".."));
    assert!(!is_valid_identifier("a/b"));
    assert!(!is_valid_identifier("a\u{0}b"));
}
