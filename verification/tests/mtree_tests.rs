use std::io::Write;

use pacman_rs::mtree::{read_mtree, read_mtree_from_bytes, FileType};
use pacman_rs::Error;

fn gzip(text: &str) -> Vec<u8> {
    let mut enc = flate2::write::GzEncoder::new(Vec::new(), flate2::Compression::default());
    enc.write_all(text.as_bytes()).unwrap();
    enc.finish().unwrap()
}

#[test]
fn carry_over_of_mode_uid_gid_size() {
    let text = "./usr/bin/foo mode=755 uid=0 gid=0 time=123.0 size=10 type=file\n./usr/bin/bar time=124.0\n";
    let v = read_mtree(text).unwrap();
    assert_eq!(v.len(), 2);
    assert_eq!(v[0].filepath, "/usr/bin/foo");
    assert_eq!(v[0].mode, 755);
    assert_eq!(v[0].time, 123);
    assert_eq!(v[0].filesize, 10);
    assert_eq!(v[0].filetype, FileType::File);
    assert_eq!(v[1].filepath, "/usr/bin/bar");
    assert_eq!(v[1].mode, 755);
    assert_eq!(v[1].uid, 0);
    assert_eq!(v[1].gid, 0);
    assert_eq!(v[1].filesize, 10);
    assert_eq!(v[1].time, 124);
}

#[test]
fn per_line_attributes_reset() {
    let text = "./a type=link link=/target md5digest=aa time=5.0\n./b mode=4\n";
    let v = read_mtree(text).unwrap();
    assert_eq!(v[0].filetype, FileType::SymbolicLink);
    assert_eq!(v[0].link.as_deref(), Some("/target"));
    assert_eq!(v[0].hashes.md5.as_deref(), Some("aa"));
    assert_eq!(v[1].filetype, FileType::Unknown);
    assert_eq!(v[1].link, None);
    assert_eq!(v[1].hashes.md5, None);
    assert_eq!(v[1].time, 0);
    assert_eq!(v[1].mode, 4);
}

#[test]
fn leading_current_directory_marker_normalizes_away() {
    let with_dot = read_mtree("./usr/share/doc type=dir\n").unwrap();
    let without = read_mtree("/usr/share/doc type=dir\n").unwrap();
    assert_eq!(with_dot[0].filepath, "/usr/share/doc");
    assert_eq!(with_dot[0].filepath, without[0].filepath);
}

#[test]
fn directives_yield_no_record_but_set_defaults() {
    let text = "#mtree\n/set mode=644 uid=0 gid=0 type=file\n./etc/conf time=9.0\n";
    let v = read_mtree(text).unwrap();
    assert_eq!(v.len(), 1);
    assert_eq!(v[0].filepath, "/etc/conf");
    assert_eq!(v[0].mode, 644);
    // the type key on the /set line does not carry over: it resets per line
    assert_eq!(v[0].filetype, FileType::Unknown);
}

#[test]
fn fractional_seconds_truncate() {
    let v = read_mtree("./a time=123.999 type=file\n").unwrap();
    assert_eq!(v[0].time, 123);
}

#[test]
fn bad_integer_is_an_error() {
    assert_eq!(read_mtree("./a mode=rwx\n").unwrap_err(), Error::BadInteger("rwx".to_string()));
    assert_eq!(read_mtree("./a time=later\n").unwrap_err(), Error::BadInteger("later".to_string()));
}

#[test]
fn unknown_file_type_is_an_error_naming_the_line() {
    let line = "./a type=pipe";
    let text = "./a type=pipe\n";
    assert_eq!(
        read_mtree(text).unwrap_err(),
        Error::BadFileType("pipe".to_string(), line.to_string())
    );
}

#[test]
fn unknown_hash_kind_is_an_error_naming_the_prefix() {
    assert_eq!(
        read_mtree("./a sha999digest=ab\n").unwrap_err(),
        Error::BadHashKind("sha999".to_string())
    );
}

#[test]
fn unknown_key_is_an_error_naming_the_line() {
    assert_eq!(
        read_mtree("./a owner=root\n").unwrap_err(),
        Error::UnknownKey("owner".to_string(), "./a owner=root".to_string())
    );
}

#[test]
fn both_digests_are_recorded() {
    let v = read_mtree("./a md5digest=aa sha256digest=bb type=file\n").unwrap();
    assert_eq!(v[0].hashes.md5.as_deref(), Some("aa"));
    assert_eq!(v[0].hashes.sha256.as_deref(), Some("bb"));
}

#[test]
fn compressed_manifest_round_trips() {
    let text = "#mtree\n/set mode=644 uid=0 gid=0\n./usr/lib/libx.so time=7.5 size=42 type=file sha256digest=cafe\n";
    let from_bytes = read_mtree_from_bytes(&gzip(text)).unwrap();
    let from_text = read_mtree(text).unwrap();
    assert_eq!(from_bytes, from_text);
    assert_eq!(from_bytes.len(), 1);
    assert_eq!(from_bytes[0].filepath, "/usr/lib/libx.so");
    assert_eq!(from_bytes[0].filesize, 42);
}

#[test]
fn corrupt_stream_is_a_decode_error() {
    let garbage = vec![0x1f, 0x8b, 0x00, 0x01, 0x02, 0x03];
    assert_eq!(read_mtree_from_bytes(&garbage).unwrap_err(), Error::Decode);
}

#[test]
fn truncated_stream_is_a_decode_error() {
    let mut bytes = gzip("./a type=file\n");
    bytes.truncate(bytes.len() - 5);
    assert_eq!(read_mtree_from_bytes(&bytes).unwrap_err(), Error::Decode);
}

#[test]
fn time_without_a_whole_part_truncates_to_zero() {
    let v = read_mtree("./a time=.5 type=file\n").unwrap();
    assert_eq!(v[0].time, 0);
}

#[test]
fn time_with_a_trailing_point_keeps_the_whole_part() {
    let v = read_mtree("./a time=77. type=file\n").unwrap();
    assert_eq!(v[0].time, 77);
}

#[test]
fn empty_manifest_text_yields_no_records() {
    assert_eq!(read_mtree("").unwrap(), vec![]);
    assert_eq!(read_mtree("\n\n").unwrap(), vec![]);
}

#[test]
fn value_stops_at_a_second_equals_sign() {
    // only the segment between the first and second equals sign counts
    let v = read_mtree("./a sha256digest=abc=def type=file\n").unwrap();
    assert_eq!(v[0].hashes.sha256.as_deref(), Some("abc"));
}
