use dickgrowerbot::config::{
    competitor_bots_line, ensure_starts_with_at_sign, Announcement, AnnouncementsConfig,
    BattlesFeatureToggles, DickOfDaySelectionMode, FeatureToggles, SupportedLanguage,
};

#[test]
fn test_ensure_starts_with_at_sign() {
    let result = "@test";
    assert_eq!(ensure_starts_with_at_sign("test".to_owned()), result);
    assert_eq!(ensure_starts_with_at_sign("@test".to_owned()), result);
}

#[test]
fn at_sign_is_added_to_an_empty_name() {
    assert_eq!(ensure_starts_with_at_sign(String::new()), "@");
}

#[test]
fn competitor_bots_are_joined_as_handles() {
    assert_eq!(competitor_bots_line(&["one", "@two", "three"]), "@one, @two, @three");
    assert_eq!(competitor_bots_line(&["solo"]), "@solo");
    assert_eq!(competitor_bots_line(&[]), "");
}

#[test]
fn empty_announcement_is_none() {
    assert!(Announcement::new(String::new()).is_none());
}

#[test]
fn announcement_carries_the_sha256_of_its_text() {
    let a = Announcement::new("abc".to_owned()).unwrap();
    assert_eq!(a.text.as_str(), "abc");
    let expected: Vec<u8> = vec![
        0xba, 0x78, 0x16, 0xbf, 0x8f, 0x01, 0xcf, 0xea, 0x41, 0x41, 0x40, 0xde, 0x5d, 0xae, 0x22,
        0x23, 0xb0, 0x03, 0x61, 0xa3, 0x96, 0x17, 0x7a, 0x9c, 0xb4, 0x10, 0xff, 0x61, 0xf2, 0x00,
        0x15, 0xad,
    ];
    assert_eq!(*a.hash, expected);
}

#[test]
fn announcements_are_kept_for_non_empty_texts_only() {
    let both = AnnouncementsConfig::from_texts(5, "hello".to_owned(), "privet".to_owned());
    assert_eq!(both.max_shows, 5);
    assert_eq!(both.announcements.len(), 2);
    assert_eq!(both.get(SupportedLanguage::EN).unwrap().text.as_str(), "hello");
    assert_eq!(both.get(SupportedLanguage::RU).unwrap().text.as_str(), "privet");

    let ru_only = AnnouncementsConfig::from_texts(0, String::new(), "privet".to_owned());
    assert_eq!(ru_only.announcements.len(), 1);
    assert!(ru_only.get(SupportedLanguage::EN).is_none());
    assert_eq!(ru_only.get(SupportedLanguage::RU).unwrap().text.as_str(), "privet");

    let none = AnnouncementsConfig::from_texts(3, String::new(), String::new());
    assert!(none.announcements.is_empty());
    assert!(none.get(SupportedLanguage::RU).is_none());
}

#[test]
fn selection_mode_names_round_trip() {
    for mode in [
        DickOfDaySelectionMode::WEIGHTS,
        DickOfDaySelectionMode::EXCLUSION,
        DickOfDaySelectionMode::RANDOM,
    ] {
        assert_eq!(DickOfDaySelectionMode::parse(mode.name()), Some(mode));
    }
    assert_eq!(DickOfDaySelectionMode::parse("EXCLUSION"), Some(DickOfDaySelectionMode::EXCLUSION));
    assert_eq!(DickOfDaySelectionMode::parse("random"), None);
    assert_eq!(DickOfDaySelectionMode::parse(""), None);
}

#[test]
fn defaults_of_the_feature_toggles() {
    assert_eq!(DickOfDaySelectionMode::default(), DickOfDaySelectionMode::RANDOM);
    let pvp = BattlesFeatureToggles::default();
    assert!(!pvp.check_acceptor_length && !pvp.callback_locks && !pvp.show_stats && !pvp.show_stats_notice);
    let features = FeatureToggles::default();
    assert!(features.chats_merging);
    assert!(features.top_unlimited);
    assert_eq!(features.dod_selection_mode, DickOfDaySelectionMode::RANDOM);
    assert_eq!(features.pvp, pvp);
}
