use flate2::write::GzEncoder;
use flate2::Compression;
use package_search::feed::{content_text, read_contents_feed, read_feed, read_package_feed};
use package_search::ingest::Failure;
use package_search::package::{Package, PackageFile};
use std::io::Write;

fn gzip(content: &[u8]) -> Vec<u8> {
    let mut encoder = GzEncoder::new(Vec::new(), Compression::default());
    encoder.write_all(content).unwrap();
    encoder.finish().unwrap()
}

#[test]
fn feed_decodes_to_its_text() {
    assert_eq!(read_feed(&gzip(b"hello\nworld\n")), Ok("hello\nworld\n".to_string()));
    assert_eq!(read_feed(&gzip(b"")), Ok(String::new()));
    assert_eq!(read_feed(&gzip("n\u{e4}me \u{1f600}".as_bytes())), Ok("n\u{e4}me \u{1f600}".to_string()));
}

#[test]
fn long_feed_decodes_whole() {
    let mut text = String::new();
    for i in 0..20000 {
        text.push_str(&format!("Package: p{}\nVersion: {}\n\n", i, i));
    }
    let data = gzip(text.as_bytes());
    assert!(data.len() < text.len());
    assert_eq!(read_feed(&data), Ok(text));
}

#[test]
fn data_that_is_not_gzip_does_not_decode() {
    assert_eq!(read_feed(b""), Err(Failure::Decode));
    assert_eq!(read_feed(b"Package: a\n\n"), Err(Failure::Decode));
    assert_eq!(read_package_feed("main", b"Package: a\n\n"), Err(Failure::Decode));
    assert_eq!(read_contents_feed(b"bin/x p\n"), Err(Failure::Decode));
}

#[test]
fn broken_gzip_does_not_decode() {
    let data = gzip(b"Package: a\nVersion: 1\n\n");
    let cut = &data[..data.len() - 5];
    assert_eq!(read_feed(cut), Err(Failure::Decode));
    let mut wrong = data.clone();
    let at = wrong.len() - 6;
    wrong[at] ^= 0xff;
    assert_eq!(read_feed(&wrong), Err(Failure::Decode));
}

#[test]
fn content_that_is_not_utf8_does_not_decode() {
    assert_eq!(read_feed(&gzip(&[b'a', 0xff, b'b'])), Err(Failure::Decode));
    assert_eq!(read_feed(&gzip(&[0xc3])), Err(Failure::Decode));
    assert_eq!(read_feed(&gzip(&[0xed, 0xa0, 0x80])), Err(Failure::Decode));
}

#[test]
fn content_text_of_each_kind_of_content() {
    assert_eq!(content_text(None), Err(Failure::Decode));
    assert_eq!(content_text(Some(vec![0xff])), Err(Failure::Decode));
    assert_eq!(content_text(Some(vec![])), Ok(String::new()));
    assert_eq!(content_text(Some(vec![0xc3, 0xa4, b'!'])), Ok("\u{e4}!".to_string()));
}

#[test]
fn package_feed_gives_its_records() {
    let data = gzip(b"Package: a\nVersion: 1\nDescription: d\n\nPackage: b\nVersion: 2\n\n");
    let found = read_package_feed("main", &data).unwrap();
    assert_eq!(
        found,
        vec![
            Package {
                name: "a".to_string(),
                version: "1".to_string(),
                source: "main".to_string(),
                description: "d".to_string(),
            },
            Package {
                name: "b".to_string(),
                version: "2".to_string(),
                source: "main".to_string(),
                description: String::new(),
            },
        ]
    );
}

#[test]
fn contents_feed_gives_its_pairs() {
    let data = gzip(b"usr/bin/foo  pkgA,pkgB\nskipped\n");
    let found = read_contents_feed(&data).unwrap();
    assert_eq!(
        found,
        vec![
            PackageFile { filename: "usr/bin/foo".to_string(), package: "pkgA".to_string() },
            PackageFile { filename: "usr/bin/foo".to_string(), package: "pkgB".to_string() },
        ]
    );
}
