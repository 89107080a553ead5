use belt::common::property_tree::{load_ptree, save_ptree, save_string, PropertyTree, TreeError};
use belt::common::settings::{ModSettings, ModSettingsScopeName, ModSettingsValue, SettingsError};

fn wrapper(value: PropertyTree) -> PropertyTree {
    PropertyTree::Dictionary(vec![("value".to_string(), value)])
}

fn settings_bytes(startup: Vec<(String, PropertyTree)>) -> Vec<u8> {
    let root = PropertyTree::Dictionary(vec![
        ("startup".to_string(), PropertyTree::Dictionary(startup)),
        ("runtime-global".to_string(), PropertyTree::Dictionary(Vec::new())),
        ("runtime-per-user".to_string(), PropertyTree::Dictionary(Vec::new())),
    ]);
    let mut bytes = vec![2, 0, 0, 0, 55, 0, 1, 0, 0];
    bytes.extend(save_ptree(&root));
    bytes
}

#[test]
fn strings_are_written_with_packed_lengths() {
    assert_eq!(save_string(""), vec![1]);
    assert_eq!(save_string("ab"), vec![0, 2, b'a', b'b']);
    let long = "x".repeat(300);
    let bytes = save_string(&long);
    assert_eq!(&bytes[..6], &[0, 255, 44, 1, 0, 0]);
    assert_eq!(bytes.len(), 306);
}

#[test]
fn trees_load_back_as_saved() {
    let tree = PropertyTree::Dictionary(vec![
        ("flag".to_string(), PropertyTree::Bool(true)),
        ("n".to_string(), PropertyTree::Number(1.5f64.to_bits())),
        ("list".to_string(), PropertyTree::List(vec![PropertyTree::SignedInteger(-7), PropertyTree::Nil])),
        ("u".to_string(), PropertyTree::UnsignedInteger(u64::MAX)),
        ("s".to_string(), PropertyTree::String("héllo".to_string())),
    ]);
    let mut bytes = save_ptree(&tree);
    let len = bytes.len();
    bytes.extend([9, 9, 9]);
    let (loaded, end) = load_ptree(&bytes, 0).expect("load");
    assert_eq!(end, len);
    assert_eq!(save_ptree(&loaded), save_ptree(&tree));
}

#[test]
fn bad_trees_are_refused() {
    assert_eq!(load_ptree(&[9, 0], 0).unwrap_err(), TreeError::InvalidType(9));
    assert_eq!(load_ptree(&[2, 0, 1, 2], 0).unwrap_err(), TreeError::UnexpectedEof);
    assert_eq!(load_ptree(&[3, 0, 0, 2, 0xff, 0xfe], 0).unwrap_err(), TreeError::InvalidUtf8);
    assert_eq!(load_ptree(&[5, 0, 1, 0, 0, 0, 1, 0, 0], 0).unwrap_err(), TreeError::MissingKey);
}

#[test]
fn settings_round_trip_through_bytes() {
    let bytes = settings_bytes(vec![
        ("text".to_string(), wrapper(PropertyTree::String("hi".to_string()))),
        ("ticks".to_string(), wrapper(PropertyTree::SignedInteger(3600))),
        (
            "colour".to_string(),
            wrapper(PropertyTree::Dictionary(vec![
                ("r".to_string(), PropertyTree::Number(1.0f64.to_bits())),
                ("g".to_string(), PropertyTree::Number(0.5f64.to_bits())),
                ("b".to_string(), PropertyTree::Number(0.0f64.to_bits())),
                ("a".to_string(), PropertyTree::Number(1.0f64.to_bits())),
            ])),
        ),
    ]);
    let settings = ModSettings::from_reader(&bytes).expect("read");
    let startup = settings.settings.scope_ref(ModSettingsScopeName::Startup);
    assert_eq!(startup.len(), 3);
    assert!(matches!(&startup[1].1, ModSettingsValue::Int(3600)));
    assert!(matches!(&startup[2].1, ModSettingsValue::Color { g, .. } if *g == 0.5f64.to_bits()));
    let saved = settings.save_bytes();
    let again = ModSettings::from_reader(&saved).expect("read again");
    assert_eq!(again.save_bytes(), saved);
    assert_eq!(&saved[..9], &bytes[..9]);
}

#[test]
fn set_replaces_adds_and_removes() {
    let bytes = settings_bytes(vec![("a".to_string(), wrapper(PropertyTree::Bool(false)))]);
    let mut settings = ModSettings::from_reader(&bytes).expect("read");
    let old = settings.set(ModSettingsScopeName::Startup, "a".to_string(), Some(ModSettingsValue::Bool(true)));
    assert!(matches!(old, Some(ModSettingsValue::Bool(false))));
    let none = settings.set(ModSettingsScopeName::Startup, "b".to_string(), Some(ModSettingsValue::Int(2)));
    assert!(none.is_none());
    let startup = settings.settings.scope_ref(ModSettingsScopeName::Startup);
    assert_eq!(startup.len(), 2);
    assert_eq!(startup[1].0, "b");
    let removed = settings.set(ModSettingsScopeName::Startup, "a".to_string(), None);
    assert!(matches!(removed, Some(ModSettingsValue::Bool(true))));
    assert_eq!(settings.settings.scope_ref(ModSettingsScopeName::Startup).len(), 1);
    assert!(settings.settings.scope_ref(ModSettingsScopeName::RuntimeGlobal).is_empty());
}

#[test]
fn malformed_settings_are_reported() {
    assert!(matches!(ModSettings::from_reader(&[1, 2, 3]), Err(SettingsError::Tree(TreeError::UnexpectedEof))));
    let mut not_dict = vec![0u8; 9];
    not_dict.extend(save_ptree(&PropertyTree::Bool(true)));
    assert!(matches!(ModSettings::from_reader(&not_dict), Err(SettingsError::RootNotDictionary)));
    let mut missing = vec![0u8; 9];
    missing.extend(save_ptree(&PropertyTree::Dictionary(Vec::new())));
    assert!(matches!(
        ModSettings::from_reader(&missing),
        Err(SettingsError::MissingScope(ModSettingsScopeName::Startup))
    ));
    let no_value = settings_bytes(vec![("k".to_string(), PropertyTree::Dictionary(Vec::new()))]);
    assert!(matches!(ModSettings::from_reader(&no_value), Err(SettingsError::MissingValue(k)) if k == "k"));
    let bad_colour = settings_bytes(vec![(
        "c".to_string(),
        wrapper(PropertyTree::Dictionary(vec![("r".to_string(), PropertyTree::Number(0))])),
    )]);
    assert!(matches!(
        ModSettings::from_reader(&bad_colour),
        Err(SettingsError::ColorMissingNumber(k, ch)) if k == "c" && ch == "g"
    ));
    let unexpected = settings_bytes(vec![("l".to_string(), wrapper(PropertyTree::List(Vec::new())))]);
    assert!(matches!(ModSettings::from_reader(&unexpected), Err(SettingsError::UnexpectedType(..))));
}

#[test]
fn scope_names() {
    assert_eq!(ModSettingsScopeName::Startup.as_str(), "startup");
    assert_eq!(ModSettingsScopeName::RuntimeGlobal.as_str(), "runtime-global");
    assert_eq!(ModSettingsScopeName::RuntimePerUser.as_str(), "runtime-per-user");
}

#[test]
fn blueprint_settings_are_written_under_the_sanitizer_keys() {
    let bytes = settings_bytes(Vec::new());
    let mut settings = ModSettings::from_reader(&bytes).expect("read");
    belt::blueprint::runner::apply_blueprint_settings(&mut settings, 600, 3, "0eNq".to_string());
    let startup = settings.settings.scope_ref(ModSettingsScopeName::Startup);
    let find = |k: &str| startup.iter().find(|(name, _)| name == k).map(|(_, v)| v);
    assert!(matches!(find("belt-sanitizer-target-tick"), Some(ModSettingsValue::Int(600))));
    assert!(matches!(find("belt-sanitizer-blueprint-mode"), Some(ModSettingsValue::Bool(true))));
    assert!(matches!(find("belt-sanitizer-blueprint-string"), Some(ModSettingsValue::String(s)) if s == "0eNq"));
    assert!(matches!(find("belt-sanitizer-blueprint-count"), Some(ModSettingsValue::Int(3))));
    assert_eq!(startup.len(), 4);
}

#[test]
fn changed_settings_read_back_after_saving() {
    let bytes = settings_bytes(vec![
        ("keep".to_string(), wrapper(PropertyTree::Bool(false))),
        ("drop".to_string(), wrapper(PropertyTree::SignedInteger(1))),
    ]);
    let mut settings = ModSettings::from_reader(&bytes).expect("read");
    settings.set(ModSettingsScopeName::Startup, "drop".to_string(), None);
    settings.set(ModSettingsScopeName::RuntimeGlobal, "new".to_string(), Some(ModSettingsValue::String("v".to_string())));
    let saved = settings.save_bytes();
    let again = ModSettings::from_reader(&saved).expect("read again");
    assert_eq!(again.save_bytes(), saved);
    let startup = again.settings.scope_ref(ModSettingsScopeName::Startup);
    assert_eq!(startup.len(), 1);
    assert!(matches!(&startup[0], (k, ModSettingsValue::Bool(false)) if k == "keep"));
    let global = again.settings.scope_ref(ModSettingsScopeName::RuntimeGlobal);
    assert!(matches!(&global[..], [(k, ModSettingsValue::String(s))] if k == "new" && s == "v"));
    assert_eq!(&saved[..9], &bytes[..9]);
}
