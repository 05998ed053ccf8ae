use pacman_rs::interface::{Args, Mode};

fn no_flags() -> Args {
    Args {
        database: false,
        files: false,
        query: false,
        remove: false,
        sync: false,
        deptest: false,
        upgrade: false,
    }
}

#[test]
fn each_flag_selects_its_mode() {
    assert_eq!(Args { database: true, ..no_flags() }.parse_mode(), Mode::Database);
    assert_eq!(Args { files: true, ..no_flags() }.parse_mode(), Mode::Files);
    assert_eq!(Args { query: true, ..no_flags() }.parse_mode(), Mode::Query);
    assert_eq!(Args { remove: true, ..no_flags() }.parse_mode(), Mode::Remove);
    assert_eq!(Args { sync: true, ..no_flags() }.parse_mode(), Mode::Sync);
    assert_eq!(Args { deptest: true, ..no_flags() }.parse_mode(), Mode::Deptest);
    assert_eq!(Args { upgrade: true, ..no_flags() }.parse_mode(), Mode::Upgrade);
}

#[test]
fn the_first_set_flag_wins() {
    let a = Args { database: true, upgrade: true, ..no_flags() };
    assert_eq!(a.parse_mode(), Mode::Database);
}
