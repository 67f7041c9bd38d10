use mirror_core::format::{format_size, u64_to_dec};
use mirror_core::i18n::TranslationStore;
use mirror_core::map_io_error_to_status;
use mirror_core::responders::forbidden;
use mirror_core::session::{forwarded_ip, get_bool_cookie, get_root_domain, get_session,
    get_theme, is_logged_in, parse_language, use_plain_choice, use_viewers_choice};
use mirror_core::{IoErrorKind, Status};

#[test]
fn session_cookie_splits_at_the_first_dot() {
    assert_eq!(get_session(Some("alice.0")), ("alice".to_string(), 0));
    assert_eq!(get_session(Some("bob.1")), ("bob".to_string(), 1));
    assert_eq!(get_session(Some("carol.not-a-number")), ("carol".to_string(), 1));
    assert_eq!(get_session(Some("dotless")), ("dotless".to_string(), 1));
    assert_eq!(get_session(None), ("Nobody".to_string(), 1));
}

#[test]
fn login_state_is_cookie_presence() {
    assert!(is_logged_in(Some("anything")));
    assert!(!is_logged_in(None));
}

#[test]
fn bool_cookies_accept_only_the_word_true() {
    assert!(get_bool_cookie(Some("true"), false));
    assert!(!get_bool_cookie(Some("True"), true));
    assert!(!get_bool_cookie(Some("yes"), true));
    assert!(get_bool_cookie(None, true));
    assert!(!get_bool_cookie(None, false));
}

#[test]
fn theme_falls_back_when_the_style_is_missing() {
    let styles = vec!["standard".to_string(), "dark".to_string()];
    assert_eq!(get_theme(Some("dark"), &styles), "dark");
    assert_eq!(get_theme(Some("neon"), &styles), "standard");
    assert_eq!(get_theme(None, &styles), "standard");
}

#[test]
fn root_domain_drops_the_first_label() {
    assert_eq!(get_root_domain("mirror.example.com", "fallback.pl"), "example.com");
    assert_eq!(get_root_domain("localhost", "fallback.pl"), "fallback.pl");
}

#[test]
fn forwarded_ip_takes_the_first_entry_and_masks_loopback() {
    assert_eq!(forwarded_ip(Some("10.0.0.5, 192.168.0.1")), "10.0.0.5");
    assert_eq!(forwarded_ip(Some(" 127.0.0.1 ")), "(unknown)");
    assert_eq!(forwarded_ip(Some("::1")), "(unknown)");
    assert_eq!(forwarded_ip(None), "(unknown)");
}

#[test]
fn plain_pages_serve_old_and_anonymous_agents() {
    assert!(use_plain_choice(None, false));
    assert!(use_plain_choice(Some("Mozilla/1.22 (compatible)"), false));
    assert!(use_plain_choice(Some("Mozilla/5.0"), true));
    assert!(!use_plain_choice(Some("Mozilla/5.0"), false));
}

#[test]
fn media_players_never_get_viewers() {
    assert!(!use_viewers_choice(Some("Winamp/5.0"), true));
    assert!(!use_viewers_choice(Some("VLC/3.0"), true));
    assert!(use_viewers_choice(Some("Mozilla/5.0"), true));
    assert!(!use_viewers_choice(Some("Mozilla/5.0"), false));
    assert!(use_viewers_choice(None, false));
}

#[test]
fn language_header_picks_the_first_available_code() {
    let available = vec!["en".to_string(), "pl".to_string()];
    assert_eq!(
        parse_language("da, en-GB;q=0.8, en;q=0.7", &available).unwrap(),
        "en"
    );
    assert_eq!(parse_language("PL-pl", &available).unwrap(), "pl");
    assert!(parse_language("fr, de", &available).is_none());
}

#[test]
fn sizes_format_with_one_decimal_and_binary_units() {
    assert_eq!(format_size(0), "0 B");
    assert_eq!(format_size(512), "512.0 B");
    assert_eq!(format_size(1536), "1.5 KiB");
    // A tie at 1.25 units rounds to the even tenth.
    assert_eq!(format_size(1280), "1.2 KiB");
    assert_eq!(format_size(1048576), "1.0 MiB");
    assert_eq!(format_size(1073741824), "1.0 GiB");
    assert_eq!(format_size(1099511627776), "1.0 TiB");
}

#[test]
fn decimal_rendering_matches_the_number() {
    assert_eq!(u64_to_dec(0), "0");
    assert_eq!(u64_to_dec(7), "7");
    assert_eq!(u64_to_dec(1234567890), "1234567890");
}

#[test]
fn io_errors_map_to_their_statuses() {
    assert_eq!(map_io_error_to_status(IoErrorKind::NotFound), Status::NotFound);
    assert_eq!(map_io_error_to_status(IoErrorKind::PermissionDenied), Status::Forbidden);
    assert_eq!(
        map_io_error_to_status(IoErrorKind::StorageFull),
        Status::InsufficientStorage
    );
    assert_eq!(map_io_error_to_status(IoErrorKind::Other), Status::InternalServerError);
}

#[test]
fn login_redirect_carries_the_requested_location() {
    assert_eq!(forbidden("/files/secret"), "/account/login?next=/files/secret");
}

#[test]
fn translations_fall_back_to_english() {
    let en = vec![
        ("language_name".to_string(), "English".to_string()),
        ("hello".to_string(), "Hello".to_string()),
    ];
    let pl = vec![
        ("language_name".to_string(), "Polski".to_string()),
        ("hello".to_string(), "Witaj".to_string()),
    ];
    let store = TranslationStore::new(vec![
        ("pl".to_string(), pl),
        ("en".to_string(), en),
    ]);
    let t = store.get_translation("pl");
    assert_eq!(t[1].1, "Witaj");
    let t = store.get_translation("xx");
    assert_eq!(t[1].1, "Hello");
    let names = store.available_languages();
    assert_eq!(names[0].0, "en");
    assert_eq!(names[1].1, "Polski");
}
