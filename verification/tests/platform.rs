use agentplay::actions::{parse_actions, ActionsErrorKind};
use agentplay::model::Action;
use agentplay::text::split_whitespace;
use agentplay::input::{InputError, InputPolicy};
use agentplay::keys::{character_key_code, key_code, parse_key, KeyError};
use agentplay::model::Key;
use agentplay::window::{
    find_target, matching_windows, select_target, AttachError, SelectorError, TargetIdentity,
    WindowInfo, WindowSelector,
};
use std::time::Duration;

fn window(pid: i32, bundle: &str, title: Option<&str>) -> WindowInfo {
    WindowInfo {
        window_id: 42,
        pid,
        application_name: "Game".into(),
        bundle_identifier: bundle.into(),
        title: title.map(str::to_owned),
    }
}

#[test]
fn selector_requires_a_constraint() {
    assert!(WindowSelector::default().validate().is_err());
}

#[test]
fn selector_matches_all_supplied_constraints() {
    let selector = WindowSelector {
        window_id: Some(42),
        pid: Some(7),
        bundle_identifier: Some("org.example.game".into()),
        title_contains: Some("Baba".into()),
    };
    assert!(selector.matches(&window(7, "org.example.game", Some("Baba Is You"))));
    assert!(!selector.matches(&window(8, "org.example.game", Some("Baba Is You"))));
}

#[test]
fn selector_can_target_exact_window_id() {
    let selector = WindowSelector {
        window_id: Some(42),
        ..WindowSelector::default()
    };
    assert!(selector.matches(&window(7, "org.example.game", Some("Baba Is You"))));
    let mut other = window(7, "org.example.game", Some("Baba Is You"));
    other.window_id = 43;
    assert!(!selector.matches(&other));
}

#[test]
fn policy_rejects_unlisted_keys() {
    let policy = InputPolicy::new(vec![Key::Left, Key::Character('z')], Duration::ZERO)
        .expect("valid policy");
    assert!(policy.allows(&Key::Left));
    assert!(policy.allows(&Key::Character('z')));
    assert!(!policy.allows(&Key::Right));
}

#[test]
fn maps_baba_keys() {
    assert_eq!(key_code(&Key::Left).unwrap(), 0x7B);
    assert_eq!(key_code(&Key::Character('z')).unwrap(), 0x06);
    assert_eq!(key_code(&Key::Character('r')).unwrap(), 0x0F);
}

#[test]
fn selector_errors_in_order() {
    let empty_bundle = WindowSelector {
        bundle_identifier: Some(String::new()),
        title_contains: Some(String::new()),
        ..WindowSelector::default()
    };
    assert_eq!(
        empty_bundle.validate(),
        Err(SelectorError::EmptyBundleIdentifier)
    );
    let empty_title = WindowSelector {
        pid: Some(1),
        title_contains: Some(String::new()),
        ..WindowSelector::default()
    };
    assert_eq!(empty_title.validate(), Err(SelectorError::EmptyTitle));
    assert_eq!(
        WindowSelector::default().validate(),
        Err(SelectorError::NoConstraint)
    );
}

#[test]
fn title_constraint_needs_a_title() {
    let selector = WindowSelector {
        title_contains: Some("Baba".into()),
        ..WindowSelector::default()
    };
    assert!(!selector.matches(&window(7, "org.example.game", None)));
    assert!(!selector.matches(&window(7, "org.example.game", Some("baba"))));
    assert!(selector.matches(&window(7, "org.example.game", Some("Play Baba"))));
}

#[test]
fn attach_needs_exactly_one_match() {
    let selector = WindowSelector {
        title_contains: Some("Baba".into()),
        ..WindowSelector::default()
    };
    let mut other = window(9, "org.example.other", Some("Editor"));
    other.window_id = 50;
    let windows = vec![other.clone(), window(7, "org.example.game", Some("Baba Is You"))];
    assert_eq!(matching_windows(&selector, &windows), vec![1]);
    assert_eq!(
        select_target(&selector, &windows),
        Ok(TargetIdentity {
            window_id: 42,
            pid: 7,
            bundle_identifier: "org.example.game".into(),
        })
    );
    assert_eq!(
        select_target(&selector, &vec![other.clone()]),
        Err(AttachError::NoMatch)
    );
    let twice = vec![
        window(7, "org.example.game", Some("Baba Is You")),
        other,
        window(8, "org.example.game", Some("Baba Is You")),
    ];
    assert_eq!(
        select_target(&selector, &twice),
        Err(AttachError::Ambiguous(vec![0, 2]))
    );
    assert_eq!(
        select_target(&WindowSelector::default(), &twice),
        Err(AttachError::InvalidSelector(SelectorError::NoConstraint))
    );
}

#[test]
fn target_is_found_by_identity() {
    let target = TargetIdentity {
        window_id: 42,
        pid: 7,
        bundle_identifier: "org.example.game".into(),
    };
    let windows = vec![
        window(8, "org.example.game", None),
        window(7, "org.example.game", Some("Baba Is You")),
    ];
    assert_eq!(find_target(&target, &windows), Some(1));
    assert_eq!(find_target(&target, &windows[..1].to_vec()), None);
}

#[test]
fn key_hold_is_limited_to_one_second() {
    assert!(InputPolicy::new(vec![Key::Up], Duration::from_secs(1)).is_ok());
    assert!(matches!(
        InputPolicy::new(vec![Key::Up], Duration::from_nanos(1_000_000_001)),
        Err(InputError::KeyHoldTooLong)
    ));
}

#[test]
fn capture_only_allows_nothing() {
    let policy = InputPolicy::capture_only();
    assert!(!policy.allows(&Key::Up));
    assert_eq!(policy.key_hold_millis(), 20);
    assert_eq!(
        policy.press_command(&Key::Up),
        Err(InputError::NotAllowed(Key::Up))
    );
}

#[test]
fn press_command_gives_code_and_hold() {
    let policy = InputPolicy::new(
        vec![Key::Right, Key::Character('!')],
        Duration::from_millis(35),
    )
    .unwrap();
    assert_eq!(policy.press_command(&Key::Right), Ok((0x7C, 35)));
    assert_eq!(
        policy.press_command(&Key::Character('!')),
        Err(InputError::Unmapped(KeyError::NoPhysicalKey('!')))
    );
}

#[test]
fn character_codes_ignore_case_and_unmapped_report_lowercase() {
    assert_eq!(character_key_code('Z'), character_key_code('z'));
    assert_eq!(character_key_code('`'), Ok(0x32));
    assert_eq!(character_key_code('\\'), Ok(0x2A));
    assert_eq!(character_key_code('\''), Ok(0x27));
    assert_eq!(
        character_key_code('\u{e9}'),
        Err(KeyError::NoPhysicalKey('\u{e9}'))
    );
    assert_eq!(key_code(&Key::Enter), Ok(0x24));
    assert_eq!(key_code(&Key::Space), Ok(0x31));
    assert_eq!(key_code(&Key::Up), Ok(0x7E));
    assert_eq!(key_code(&Key::Down), Ok(0x7D));
}

#[test]
fn key_names_are_case_insensitive_and_trimmed() {
    assert_eq!(parse_key(" Up "), Ok(Key::Up));
    assert_eq!(parse_key("DOWN"), Ok(Key::Down));
    assert_eq!(parse_key("left"), Ok(Key::Left));
    assert_eq!(parse_key("Right"), Ok(Key::Right));
    assert_eq!(parse_key("return"), Ok(Key::Enter));
    assert_eq!(parse_key("Enter"), Ok(Key::Enter));
    assert_eq!(parse_key("space"), Ok(Key::Space));
    assert_eq!(parse_key("Z"), Ok(Key::Character('z')));
    assert_eq!(parse_key("\t;\n"), Ok(Key::Character(';')));
    assert!(parse_key("").is_err());
    assert!(parse_key("ab").is_err());
    assert_eq!(
        parse_key("spacebar"),
        Err("unsupported physical key \"spacebar\"".to_string())
    );
}

#[test]
fn typed_lines_become_actions() {
    assert_eq!(
        parse_actions("  right Right\tup "),
        Ok(vec![
            Action::KeyPress(Key::Right),
            Action::KeyPress(Key::Right),
            Action::KeyPress(Key::Up),
        ])
    );
    assert_eq!(
        parse_actions("space*3"),
        Ok(vec![Action::KeyPress(Key::Space); 3])
    );
    assert_eq!(
        parse_actions("**2"),
        Ok(vec![Action::KeyPress(Key::Character('*')); 2])
    );
    let e = parse_actions("up space*x").unwrap_err();
    assert_eq!((e.kind, e.detail.as_str()), (ActionsErrorKind::InvalidCount, "space*x"));
    let e = parse_actions("space*0 nope").unwrap_err();
    assert_eq!((e.kind, e.detail.as_str()), (ActionsErrorKind::ZeroCount, "space*0"));
    let e = parse_actions("up nope*2").unwrap_err();
    assert_eq!(
        (e.kind, e.detail.as_str()),
        (ActionsErrorKind::UnsupportedKey, "unsupported physical key \"nope\"")
    );
    let e = parse_actions(" \t ").unwrap_err();
    assert_eq!((e.kind, e.detail.as_str()), (ActionsErrorKind::Empty, ""));
}

#[test]
fn whitespace_splits_tokens() {
    assert_eq!(split_whitespace(" a  bc\u{3000}d\n"), vec!["a", "bc", "d"]);
    assert!(split_whitespace("   ").is_empty());
    assert_eq!(split_whitespace("x"), vec!["x"]);
}
