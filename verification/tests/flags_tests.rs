use irename::flags::{flags_from_match, MatchFlags};

#[test]
fn flags_start_unset() {
    let flags = MatchFlags::default();
    assert!(!flags.is_global());
    assert!(!flags.is_icase());
    assert_eq!(flags, MatchFlags::none());
}

#[test]
fn flags_render_in_display_order() {
    assert_eq!(MatchFlags { global: false, icase: false }.to_text(), "");
    assert_eq!(MatchFlags { global: true, icase: false }.to_text(), "g");
    assert_eq!(MatchFlags { global: false, icase: true }.to_text(), "i");
    assert_eq!(MatchFlags { global: true, icase: true }.to_text(), "gi");
}

#[test]
fn toggles_are_independent() {
    let mut flags = MatchFlags::none();
    flags.toggle_global();
    assert_eq!(flags, MatchFlags { global: true, icase: false });
    flags.toggle_icase();
    assert_eq!(flags, MatchFlags { global: true, icase: true });
    flags.toggle_global();
    assert_eq!(flags, MatchFlags { global: false, icase: true });
    flags.toggle_icase();
    assert_eq!(flags, MatchFlags::none());
}

#[test]
fn parse_reads_the_letters() {
    assert_eq!(MatchFlags::parse(""), Ok(MatchFlags { global: false, icase: false }));
    assert_eq!(MatchFlags::parse("g"), Ok(MatchFlags { global: true, icase: false }));
    assert_eq!(MatchFlags::parse("i"), Ok(MatchFlags { global: false, icase: true }));
    assert_eq!(MatchFlags::parse("gi"), Ok(MatchFlags { global: true, icase: true }));
    assert_eq!(MatchFlags::parse("ig"), Ok(MatchFlags { global: true, icase: true }));
}

#[test]
fn parse_is_not_tied_to_the_ends_of_the_text() {
    assert_eq!(MatchFlags::parse("x"), Ok(MatchFlags { global: false, icase: false }));
    assert_eq!(MatchFlags::parse("xgy"), Ok(MatchFlags { global: true, icase: false }));
}

#[test]
fn from_str_parses() {
    let flags: Result<MatchFlags, String> = "gi".parse();
    assert_eq!(flags, Ok(MatchFlags { global: true, icase: true }));
}

#[test]
fn rendered_flags_parse_back() {
    for global in [false, true] {
        for icase in [false, true] {
            let flags = MatchFlags { global, icase };
            assert_eq!(MatchFlags::parse(&flags.to_text()), Ok(flags));
        }
    }
}

#[test]
fn rejected_text_gives_the_error_message() {
    assert_eq!(
        flags_from_match("xyz", false),
        Err(String::from("invalid regex flags: 'xyz'"))
    );
    assert_eq!(
        flags_from_match("gi", true),
        Ok(MatchFlags { global: true, icase: true })
    );
}
