use pacman_rs::desc::{parse_desc, Arch, Validation};
use pacman_rs::Error;

#[test]
fn parses_all_fields_in_scrambled_order() {
    let text = "%VERSION%\n5.11.6.arch1-1\n\n%LICENSE%\nGPL2\nMIT\n\n%NAME%\nlinux\n\n%ARCH%\nx86_64\n\n%BUILDDATE%\n1615301298\n\n%SIZE%\n94654866\n\n%DESC%\nThe Linux kernel and modules\n\n%URL%\nhttps://example.org/linux\n\n%DEPENDS%\ncoreutils\nkmod\n\n%VALIDATION%\npgp\n\n%REASON%\n1\n";
    let d = parse_desc(text).unwrap();
    assert_eq!(d.name, "linux");
    assert_eq!(d.version, "5.11.6.arch1-1");
    assert_eq!(d.description.as_deref(), Some("The Linux kernel and modules"));
    assert_eq!(d.url.as_deref(), Some("https://example.org/linux"));
    assert_eq!(d.arch, Some(Arch::X86_64));
    assert_eq!(d.build_date, Some(1615301298));
    assert_eq!(d.size, Some(94654866));
    assert_eq!(d.reason, Some(1));
    assert_eq!(d.licences, vec!["GPL2".to_string(), "MIT".to_string()]);
    assert_eq!(d.dependencies, vec!["coreutils".to_string(), "kmod".to_string()]);
    assert_eq!(d.validation, Some(Validation::Pgp));
    // omitted scalars are absent, omitted lists are empty
    assert!(d.pkgbase.is_none());
    assert!(d.install_date.is_none());
    assert!(d.packager.is_none());
    assert!(d.replaces.is_empty());
    assert!(d.provides.is_empty());
    assert!(d.groups.is_empty());
    assert!(d.conflicts.is_empty());
    assert!(d.optional_dependencies.is_empty());
}

#[test]
fn later_block_with_same_label_wins() {
    let text = "%NAME%\nfirst\n\n%VERSION%\n1\n\n%NAME%\nsecond\n";
    let d = parse_desc(text).unwrap();
    assert_eq!(d.name, "second");
}

#[test]
fn missing_name_is_a_missing_field_error() {
    let text = "%VERSION%\n1.0\n";
    assert_eq!(parse_desc(text).unwrap_err(), Error::MissingName);
}

#[test]
fn missing_version_is_a_missing_field_error() {
    let text = "%NAME%\nfoo\n";
    assert_eq!(parse_desc(text).unwrap_err(), Error::MissingVersion);
}

#[test]
fn non_integer_reason_degrades_to_absent() {
    let text = "%NAME%\nfoo\n\n%VERSION%\n1.0\n\n%REASON%\nnot-a-number\n";
    let d = parse_desc(text).unwrap();
    assert_eq!(d.reason, None);
}

#[test]
fn non_integer_dates_and_size_degrade_to_absent() {
    let text = "%NAME%\nfoo\n\n%VERSION%\n1.0\n\n%BUILDDATE%\nsoon\n\n%INSTALLDATE%\nlater\n\n%SIZE%\nbig\n";
    let d = parse_desc(text).unwrap();
    assert_eq!(d.build_date, None);
    assert_eq!(d.install_date, None);
    assert_eq!(d.size, None);
}

#[test]
fn unknown_architecture_is_an_error_naming_the_value() {
    let text = "%NAME%\nfoo\n\n%VERSION%\n1.0\n\n%ARCH%\nsparc\n";
    assert_eq!(parse_desc(text).unwrap_err(), Error::BadArchitecture("sparc".to_string()));
}

#[test]
fn any_architecture_parses() {
    let text = "%NAME%\nfoo\n\n%VERSION%\n1.0\n\n%ARCH%\nany\n";
    assert_eq!(parse_desc(text).unwrap().arch, Some(Arch::Any));
}

#[test]
fn unknown_validation_is_an_error_naming_the_value() {
    let text = "%NAME%\nfoo\n\n%VERSION%\n1.0\n\n%VALIDATION%\nmd5\n";
    assert_eq!(parse_desc(text).unwrap_err(), Error::BadValidation("md5".to_string()));
}

#[test]
fn validation_none_parses() {
    let text = "%NAME%\nfoo\n\n%VERSION%\n1.0\n\n%VALIDATION%\nnone\n";
    assert_eq!(parse_desc(text).unwrap().validation, Some(Validation::NoSignature));
}

#[test]
fn unknown_section_reports_the_name_parsed_so_far() {
    let text = "%NAME%\nfoo\n\n%BOGUS%\nvalue\n";
    assert_eq!(
        parse_desc(text).unwrap_err(),
        Error::UnknownSection("BOGUS".to_string(), "foo".to_string())
    );
}

#[test]
fn unknown_section_before_name_reports_a_placeholder() {
    let text = "%BOGUS%\nvalue\n";
    assert_eq!(
        parse_desc(text).unwrap_err(),
        Error::UnknownSection("BOGUS".to_string(), "<name not found>".to_string())
    );
}

#[test]
fn packager_sentinel_means_absent_in_both_spellings() {
    let a = "%NAME%\nfoo\n\n%VERSION%\n1\n\n%PACKAGER%\nUnknown pacakger\n";
    let b = "%NAME%\nfoo\n\n%VERSION%\n1\n\n%PACKAGER%\nUnknown packager\n";
    assert!(parse_desc(a).unwrap().packager.is_none());
    assert!(parse_desc(b).unwrap().packager.is_none());
}

#[test]
fn packager_name_is_the_text_before_the_angle_bracket() {
    let text = "%NAME%\nfoo\n\n%VERSION%\n1\n\n%PACKAGER%\nJane Doe <jane@example.org>\n";
    let p = parse_desc(text).unwrap().packager.unwrap();
    assert_eq!(p.name, "Jane Doe");
    // an email is only extracted from the very start of the value
    assert_eq!(p.email, None);
}

#[test]
fn packager_email_is_extracted_from_the_start_of_the_value() {
    let text = "%NAME%\nfoo\n\n%VERSION%\n1\n\n%PACKAGER%\njane@example.org\n";
    let p = parse_desc(text).unwrap().packager.unwrap();
    assert_eq!(p.name, "jane@example.org");
    assert_eq!(p.email.as_deref(), Some("jane@example.org"));
}

#[test]
fn packager_email_needs_a_plausible_domain() {
    let text = "%NAME%\nfoo\n\n%VERSION%\n1\n\n%PACKAGER%\njane@nodots\n";
    let p = parse_desc(text).unwrap().packager.unwrap();
    assert_eq!(p.email, None);
}

#[test]
fn optional_dependencies_split_on_the_first_colon() {
    let text = "%NAME%\nfoo\n\n%VERSION%\n1\n\n%OPTDEPENDS%\nbar: extra polish: really\nbaz\n";
    let d = parse_desc(text).unwrap();
    assert_eq!(d.optional_dependencies.len(), 2);
    assert_eq!(d.optional_dependencies[0].package, "bar");
    assert_eq!(d.optional_dependencies[0].reason.as_deref(), Some("extra polish: really"));
    assert_eq!(d.optional_dependencies[1].package, "baz");
    assert_eq!(d.optional_dependencies[1].reason, None);
}

#[test]
fn label_without_values_sets_nothing() {
    let text = "%NAME%\nfoo\n\n%LICENSE%\n\n%VERSION%\n1\n";
    let d = parse_desc(text).unwrap();
    assert!(d.licences.is_empty());
    assert_eq!(d.version, "1");
}

#[test]
fn values_are_trimmed() {
    let text = "%NAME%\n   foo  \n\n%VERSION%\n\t1.0 \n";
    let d = parse_desc(text).unwrap();
    assert_eq!(d.name, "foo");
    assert_eq!(d.version, "1.0");
}

#[test]
fn numbers_accept_a_leading_plus_sign() {
    let text = "%NAME%\nfoo\n\n%VERSION%\n1\n\n%SIZE%\n+42\n";
    assert_eq!(parse_desc(text).unwrap().size, Some(42));
}

#[test]
fn reason_out_of_byte_range_degrades_to_absent() {
    let text = "%NAME%\nfoo\n\n%VERSION%\n1\n\n%REASON%\n300\n";
    assert_eq!(parse_desc(text).unwrap().reason, None);
}

#[test]
fn packager_email_extends_over_dashed_domains() {
    let text = "%NAME%\nfoo\n\n%VERSION%\n1\n\n%PACKAGER%\njane_d+x@mail-host.example.org (jane)\n";
    let p = parse_desc(text).unwrap().packager.unwrap();
    assert_eq!(p.email.as_deref(), Some("jane_d+x@mail-host.example.org"));
}

#[test]
fn packager_email_top_label_stops_at_six_letters() {
    let text = "%NAME%\nfoo\n\n%VERSION%\n1\n\n%PACKAGER%\njane@host.abcdefgh\n";
    let p = parse_desc(text).unwrap().packager.unwrap();
    // the top label takes at most six letters, so the match stops early
    assert_eq!(p.email.as_deref(), Some("jane@host.abcdef"));
}

#[test]
fn packager_email_never_starts_with_a_dot_or_capital() {
    let text = "%NAME%\nfoo\n\n%VERSION%\n1\n\n%PACKAGER%\nJane@example.org\n";
    let p = parse_desc(text).unwrap().packager.unwrap();
    assert_eq!(p.email, None);
}

#[test]
fn multi_line_scalar_values_keep_their_inner_newline() {
    let text = "%NAME%\nfoo\n\n%VERSION%\n1\n\n%DESC%\nfirst line\nsecond line\n";
    let d = parse_desc(text).unwrap();
    assert_eq!(d.description.as_deref(), Some("first line\nsecond line"));
}
