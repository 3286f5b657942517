use smf_status::fmri::parse_fmri;
use smf_status::relative::relative_duration;

#[test]
fn relative_duration_picks_the_largest_unit() {
    assert_eq!(relative_duration(0), "0 seconds");
    assert_eq!(relative_duration(1), "1 second");
    assert_eq!(relative_duration(5), "5 seconds");
    assert_eq!(relative_duration(59), "59 seconds");
    assert_eq!(relative_duration(60), "1 minute");
    assert_eq!(relative_duration(90 * 60), "1 hour");
    assert_eq!(relative_duration(2 * 3600), "2 hours");
    assert_eq!(relative_duration(86400), "1 day");
    assert_eq!(relative_duration(13 * 86400), "1 week");
    assert_eq!(relative_duration(30 * 86400), "1 month");
    assert_eq!(relative_duration(365 * 86400), "1 year");
    assert_eq!(relative_duration(3 * 365 * 86400), "3 years");
}

#[test]
fn relative_duration_unit_boundaries() {
    assert_eq!(relative_duration(3599), "59 minutes");
    assert_eq!(relative_duration(7 * 86400 - 1), "6 days");
    assert_eq!(relative_duration(7 * 86400), "1 week");
    assert_eq!(relative_duration(30 * 86400 - 1), "4 weeks");
    assert_eq!(relative_duration(365 * 86400 - 1), "12 months");
}

#[test]
fn fmri_splits_into_four_parts() {
    let p = parse_fmri("svc:/milestone/single-user:default").unwrap();
    assert_eq!(p.scheme, "svc");
    assert_eq!(p.path, "milestone");
    assert_eq!(p.name, "single-user");
    assert_eq!(p.instance, "default");
}

#[test]
fn fmri_split_points_are_the_last_separators() {
    let p = parse_fmri("svc:/network/dns/client:main").unwrap();
    assert_eq!(p.path, "network/dns");
    assert_eq!(p.name, "client");
    assert_eq!(p.instance, "main");

    let p = parse_fmri("lrc:/etc/rc2_d/S20x:y/z").unwrap();
    assert_eq!(p.scheme, "lrc");
    assert_eq!(p.path, "etc/rc2_d");
    assert_eq!(p.name, "S20x");
    assert_eq!(p.instance, "y/z");
}

#[test]
fn fmri_rejects_other_shapes() {
    assert!(parse_fmri("").is_none());
    assert!(parse_fmri("foo").is_none());
    assert!(parse_fmri("Svc:/a/b:c").is_none());
    assert!(parse_fmri(":/a/b:c").is_none());
    assert!(parse_fmri("svc:a/b:c").is_none());
    assert!(parse_fmri("svc:/ab:c").is_none());
    assert!(parse_fmri("svc:/a/b").is_none());
}
