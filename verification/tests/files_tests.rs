use pacman_rs::files::read_files;

#[test]
fn skips_the_header_and_makes_paths_absolute() {
    let text = "%FILES%\nusr/bin/a\n/usr/bin/b\nusr/share/doc/c\n";
    let v = read_files(text).unwrap();
    assert_eq!(
        v,
        vec!["/usr/bin/a".to_string(), "/usr/bin/b".to_string(), "/usr/share/doc/c".to_string()]
    );
}

#[test]
fn header_only_input_lists_nothing() {
    let v = read_files("%FILES%").unwrap();
    assert!(v.is_empty());
}
