use std::io::Write;

use pacman_rs::db::{is_valid_local_entry_dir, DirEntry, LocalDatabase, LocalDatabaseEntry};
use pacman_rs::Error;

fn gzip(text: &str) -> Vec<u8> {
    let mut enc = flate2::write::GzEncoder::new(Vec::new(), flate2::Compression::default());
    enc.write_all(text.as_bytes()).unwrap();
    enc.finish().unwrap()
}

fn linux_desc() -> String {
    "%NAME%\nlinux\n\n%VERSION%\n5.11.6.arch1-1\n\n%ARCH%\nx86_64\n\n%SIZE%\n94654866\n".to_string()
}

fn linux_mtree() -> Vec<u8> {
    gzip(
        "#mtree\n/set mode=644 uid=0 gid=0 type=file\n./usr/lib/modules/5.11.6-arch1-1/kernel/arch/x86/crypto/aegis128-aesni.ko.xz time=1615301298.0 size=23000\n./usr/lib/modules/5.11.6-arch1-1/vmlinuz time=1615301298.0 size=7000000\n",
    )
}

fn linux_dir() -> DirEntry {
    DirEntry {
        name: "linux-5.11.6.arch1-1".to_string(),
        desc: Some(linux_desc()),
        mtree: Some(linux_mtree()),
    }
}

fn vim_dir() -> DirEntry {
    DirEntry {
        name: "vim-8-1".to_string(),
        desc: Some("%NAME%\nvim\n\n%VERSION%\n8-1\n".to_string()),
        mtree: Some(gzip("./usr/bin/vim mode=755 uid=0 gid=0 time=1.0 size=9 type=file\n")),
    }
}

#[test]
fn check_read_local_database_entry() {
    let entry = LocalDatabaseEntry::new_from_directory(&linux_dir()).unwrap();
    println!("{:?}", entry);
    assert_eq!(entry.desc.name, "linux");
    assert_eq!(entry.desc.version, "5.11.6.arch1-1");
    assert_eq!(entry.mtree.len(), 2);
}

// Implicitly tests LocalDatabaseEntry::files()
#[test]
fn check_owns() {
    let entry = LocalDatabaseEntry::new_from_directory(&linux_dir()).unwrap();
    let owns = entry
        .owns("/usr/lib/modules/5.11.6-arch1-1/kernel/arch/x86/crypto/aegis128-aesni.ko.xz");
    assert!(owns);
}

#[test]
fn check_database_get() {
    let mut lazy_db = LocalDatabase::new(vec![linux_dir(), vim_dir()]);
    let v = lazy_db.get("linux").unwrap();
    println!("{:?}", v.desc);
    assert_eq!(v.desc.name, "linux");
    let x = lazy_db.get("vim").unwrap();
    println!("{:?}", x.desc);
    assert_eq!(x.desc.name, "vim");
}

#[test]
fn check_database_query() {
    let mut lazy_db = LocalDatabase::new(vec![linux_dir(), vim_dir()]);
    lazy_db.populate("linux").unwrap();
    for name in lazy_db.pacakge_names() {
        println!("{}", name);
    }
    assert_eq!(lazy_db.pacakge_names(), vec!["linux".to_string()]);
}

#[test]
fn warm_cache_lookup_is_identical_and_touches_nothing() {
    let mut db = LocalDatabase::new(vec![linux_dir(), vim_dir()]);
    assert_eq!(db.scan_count(), 0);
    let first = db.get("linux").unwrap().clone();
    assert_eq!(db.scan_count(), 1);
    let second = db.get("linux").unwrap().clone();
    // the second call performed no directory scan and saw identical values
    assert_eq!(db.scan_count(), 1);
    assert_eq!(first.desc.name, second.desc.name);
    assert_eq!(first.desc.version, second.desc.version);
    assert_eq!(first.mtree, second.mtree);
}

#[test]
fn prefix_match_alone_is_not_found() {
    let foobar = DirEntry {
        name: "foobar-1.0-1".to_string(),
        desc: Some("%NAME%\nfoobar\n\n%VERSION%\n1.0-1\n".to_string()),
        mtree: Some(gzip("./usr/bin/foobar mode=755 uid=0 gid=0 time=1.0 size=1 type=file\n")),
    };
    let mut db = LocalDatabase::new(vec![foobar]);
    assert_eq!(db.get("foo").unwrap_err(), Error::NotFound("foo".to_string()));
    assert_eq!(db.get("foobar").unwrap().desc.name, "foobar");
}

#[test]
fn bulk_populate_filters_by_directory_name_substring() {
    let mut db = LocalDatabase::new(vec![linux_dir(), vim_dir()]);
    db.populate("li").unwrap();
    assert_eq!(db.pacakge_names(), vec!["linux".to_string()]);
}

#[test]
fn empty_query_populates_everything() {
    let mut db = LocalDatabase::new(vec![linux_dir(), vim_dir()]);
    db.populate_full_database().unwrap();
    assert_eq!(db.pacakge_names(), vec!["linux".to_string(), "vim".to_string()]);
}

#[test]
fn ownership_is_exact_match_only() {
    let entry = LocalDatabaseEntry::new_from_directory(&linux_dir()).unwrap();
    let exact = "/usr/lib/modules/5.11.6-arch1-1/kernel/arch/x86/crypto/aegis128-aesni.ko.xz";
    assert!(entry.owns(exact));
    assert!(!entry.owns("/usr/lib/modules/5.11.6-arch1-1/kernel/arch/x86/crypto/aegis128-aesni.ko.xz.sig"));
    assert!(!entry.owns("/usr/lib/modules/5.11.6-arch1-1/kernel"));
    assert!(!entry.owns(""));
}

#[test]
fn files_lists_paths_in_manifest_order() {
    let entry = LocalDatabaseEntry::new_from_directory(&linux_dir()).unwrap();
    let files = entry.files();
    assert_eq!(files.len(), 2);
    assert_eq!(
        files[0],
        "/usr/lib/modules/5.11.6-arch1-1/kernel/arch/x86/crypto/aegis128-aesni.ko.xz"
    );
    assert_eq!(files[1], "/usr/lib/modules/5.11.6-arch1-1/vmlinuz");
}

#[test]
fn names_lists_only_valid_directories() {
    let no_mtree = DirEntry {
        name: "half-1-1".to_string(),
        desc: Some("%NAME%\nhalf\n\n%VERSION%\n1-1\n".to_string()),
        mtree: None,
    };
    assert!(!is_valid_local_entry_dir(&no_mtree));
    assert!(is_valid_local_entry_dir(&linux_dir()));
    let db = LocalDatabase::new(vec![linux_dir(), no_mtree, vim_dir()]);
    assert_eq!(db.names().unwrap(), vec!["linux".to_string(), "vim".to_string()]);
}

#[test]
fn names_propagates_a_descriptor_fault() {
    let broken = DirEntry {
        name: "broken-1-1".to_string(),
        desc: Some("%VERSION%\n1-1\n".to_string()),
        mtree: Some(gzip("./x type=file mode=644 uid=0 gid=0 time=0.0 size=0\n")),
    };
    let db = LocalDatabase::new(vec![broken]);
    assert_eq!(db.names().unwrap_err(), Error::MissingName);
}

#[test]
fn lookup_fault_propagates_strictly() {
    let broken = DirEntry {
        name: "foo-1-1".to_string(),
        desc: None,
        mtree: Some(gzip("./x type=file mode=644 uid=0 gid=0 time=0.0 size=0\n")),
    };
    let mut db = LocalDatabase::new(vec![broken]);
    assert_eq!(db.get("foo").unwrap_err(), Error::MissingDesc("foo-1-1".to_string()));
}

#[test]
fn bulk_populate_skips_a_broken_candidate() {
    let broken = DirEntry {
        name: "broken-1-1".to_string(),
        desc: Some("%NAME%\nbroken\n".to_string()),
        mtree: Some(gzip("./x type=file mode=644 uid=0 gid=0 time=0.0 size=0\n")),
    };
    let mut db = LocalDatabase::new(vec![broken, vim_dir()]);
    db.populate_full_database().unwrap();
    assert_eq!(db.pacakge_names(), vec!["vim".to_string()]);
}

#[test]
fn cached_entries_are_never_replaced() {
    let mut db = LocalDatabase::new(vec![linux_dir(), vim_dir()]);
    db.get("linux").unwrap();
    db.populate_full_database().unwrap();
    // "linux" was already cached, so population added only "vim"
    assert_eq!(db.pacakge_names(), vec!["linux".to_string(), "vim".to_string()]);
}
