use beam_mm::game::{Mod, ModCfg};
use beam_mm::Preset;
use std::collections::HashMap;

/// A registry with mod1 active, mod2 inactive and mod3 active.
fn mock_modcfg() -> ModCfg {
    let mods = vec![
        Mod {
            id: "mod1".to_string(),
            active: true,
            other: HashMap::new(),
        },
        Mod {
            id: "mod2".to_string(),
            active: false,
            other: HashMap::new(),
        },
        Mod {
            id: "mod3".to_string(),
            active: true,
            other: HashMap::new(),
        },
    ];
    ModCfg::new(mods, HashMap::new()).unwrap()
}

/// The enabled preset named preset1 holding mod1.
fn mock_preset1() -> Preset {
    let mut p = Preset::new("preset1".to_string(), vec!["mod1".to_string()]);
    p.enable();
    p
}

/// The disabled preset named preset2 holding mod1 and mod2.
fn mock_preset2() -> Preset {
    Preset::new(
        "preset2".to_string(),
        vec!["mod1".to_string(), "mod2".to_string()],
    )
}

#[test]
fn creating_preset() {
    let mods: Vec<String> = vec!["mod1".into(), "mod2".into()];
    let preset = Preset::new("preset3".into(), mods.clone());

    assert_eq!(preset.get_mods(), &mods);
}

#[test]
fn adding_mods() {
    let mut preset = mock_preset1();

    preset.add_mod("mod2");
    preset.add_mods(&["mod3".into(), "mod4".into()]);

    assert_eq!(preset.get_mods(), &["mod1", "mod2", "mod3", "mod4"]);
}

#[test]
fn removing_mods() {
    let mut preset = Preset::new(
        "preset5".into(),
        vec!["mod1".into(), "mod2".into(), "mod3".into()],
    );
    preset.remove_mod("mod2");
    // Also remove mod that isn't already in the preset to verify we don't
    // get an error of sorts.
    preset.remove_mods(&["mod1".into(), "mod4".into()]);

    assert_eq!(preset.get_mods(), &["mod3"]);
}

#[test]
fn enabling_preset() {
    // preset2 is disabled in the mock whereas preset1 is enabled.
    let mut preset = mock_preset2();

    preset.enable();

    assert!(preset.is_enabled());
}

#[test]
fn disabling_preset() {
    let mut mod_cfg = mock_modcfg();
    let mut preset = mock_preset1();

    preset.disable(&mut mod_cfg).unwrap();

    assert!(!preset.is_enabled());
    assert!(!mod_cfg.is_mod_active("mod1").unwrap());
}

#[test]
fn force_disabling_preset() {
    let mut mod_cfg = mock_modcfg();
    let mut preset = mock_preset1();

    preset.add_mod("FakeMod");

    preset.force_disable(&mut mod_cfg);

    assert!(!preset.is_enabled());
    assert!(!mod_cfg.is_mod_active("mod1").unwrap());
}

#[test]
fn disable_acts_eagerly_on_both_mods() {
    let mut mod_cfg = mock_modcfg();
    mod_cfg.set_mod_active("mod2", true).unwrap();

    let mut preset = Preset::new(
        "pair".to_string(),
        vec!["mod1".to_string(), "mod2".to_string()],
    );
    preset.enable();

    // No reconciliation pass is needed: the registry changes at once.
    preset.disable(&mut mod_cfg).unwrap();

    assert!(!preset.is_enabled());
    assert!(!mod_cfg.is_mod_active("mod1").unwrap());
    assert!(!mod_cfg.is_mod_active("mod2").unwrap());
}

#[test]
fn disable_with_missing_mod_changes_nothing() {
    let mut mod_cfg = mock_modcfg();

    let mut preset = Preset::new(
        "broken".to_string(),
        vec!["mod1".to_string(), "ghost".to_string()],
    );
    preset.enable();

    assert!(preset.disable(&mut mod_cfg).is_err());

    // Both the preset's flag and the registry are untouched.
    assert!(preset.is_enabled());
    assert!(mod_cfg.is_mod_active("mod1").unwrap());
}

#[test]
fn force_disable_handles_valid_and_invalid_ids() {
    let mut mod_cfg = mock_modcfg();

    let mut preset = Preset::new(
        "mixed".to_string(),
        vec!["mod1".to_string(), "ghost".to_string()],
    );
    preset.enable();

    preset.force_disable(&mut mod_cfg);

    // The valid id is deactivated, the invalid one is ignored, no error.
    assert!(!preset.is_enabled());
    assert!(!mod_cfg.is_mod_active("mod1").unwrap());
    assert!(mod_cfg.is_mod_active("ghost").is_none());
}

#[test]
fn removing_absent_ids_is_a_no_op() {
    let mut preset = Preset::new(
        "keeper".to_string(),
        vec!["mod1".to_string(), "mod2".to_string()],
    );

    preset.remove_mods(&["nowhere".into(), "nothing".into()]);

    assert_eq!(preset.get_mods(), &["mod1", "mod2"]);
}

#[test]
fn removing_repeated_occurrences_removes_all() {
    let mut preset = Preset::new(
        "dupes".to_string(),
        vec![
            "mod1".to_string(),
            "mod2".to_string(),
            "mod1".to_string(),
            "mod3".to_string(),
        ],
    );

    preset.remove_mod("mod1");

    assert_eq!(preset.get_mods(), &["mod2", "mod3"]);
}

#[test]
fn preset_name_is_kept() {
    let preset = Preset::new("named".to_string(), vec![]);
    assert_eq!(preset.get_name(), "named");
}
