use beam_mm::game::{Mod, ModCfg};
use beam_mm::{Error, Preset};
use std::collections::HashMap;

fn extra() -> HashMap<String, serde_json::Value> {
    let mut m = HashMap::new();
    m.insert(
        "key".to_string(),
        serde_json::Value::String("value".to_string()),
    );
    m
}

/// A registry with mod1 active, mod2 inactive and mod3 active, carrying
/// extra data at both levels.
fn mock_modcfg() -> ModCfg {
    let mods = vec![
        Mod {
            id: "mod1".to_string(),
            active: true,
            other: extra(),
        },
        Mod {
            id: "mod2".to_string(),
            active: false,
            other: extra(),
        },
        Mod {
            id: "mod3".to_string(),
            active: true,
            other: extra(),
        },
    ];
    ModCfg::new(mods, extra()).unwrap()
}

fn enabled_preset(name: &str, mods: &[&str]) -> Preset {
    let mut p = Preset::new(name.to_string(), mods.iter().map(|m| m.to_string()).collect());
    p.enable();
    p
}

#[test]
fn set_mod_active() {
    let mut mod_cfg = mock_modcfg();
    mod_cfg.set_mod_active("mod1", false).unwrap();

    assert!(!mod_cfg.is_mod_active("mod1").unwrap());

    mod_cfg.set_mod_active("mod1", true).unwrap();

    assert!(mod_cfg.is_mod_active("mod1").unwrap());
}

#[test]
fn set_mod_active_missing() {
    let mut mod_cfg = mock_modcfg();

    let result = mod_cfg.set_mod_active("fake_mod", true);
    assert!(matches!(result, Err(Error::MissingMods { .. })));
}

#[test]
fn set_mods_active() {
    let mut mod_cfg = mock_modcfg();
    mod_cfg
        .set_mods_active(&["mod1".into(), "mod2".into()], false)
        .unwrap();

    assert!(!mod_cfg.is_mod_active("mod1").unwrap());
    assert!(!mod_cfg.is_mod_active("mod2").unwrap());

    mod_cfg
        .set_mods_active(&["mod1".into(), "mod2".into()], true)
        .unwrap();

    assert!(mod_cfg.is_mod_active("mod1").unwrap());
    assert!(mod_cfg.is_mod_active("mod2").unwrap());
}

#[test]
fn set_mods_active_missing() {
    let mut mod_cfg = mock_modcfg();

    let result = mod_cfg.set_mods_active(&["mod1".into(), "fake_mod".into()], true);
    assert!(matches!(result, Err(Error::MissingMods { .. })));

    // Check that no mods were set active.
    assert!(mod_cfg.is_mod_active("mod1").unwrap());
    assert!(!mod_cfg.is_mod_active("mod2").unwrap());
}

#[test]
fn set_all_mods_active() {
    let mut mod_cfg = mock_modcfg();
    mod_cfg.set_all_mods_active(false).unwrap();

    assert!(!mod_cfg.is_mod_active("mod1").unwrap());
    assert!(!mod_cfg.is_mod_active("mod2").unwrap());

    mod_cfg.set_all_mods_active(true).unwrap();

    assert!(mod_cfg.is_mod_active("mod1").unwrap());
    assert!(mod_cfg.is_mod_active("mod2").unwrap());
}

#[test]
fn is_mod_active() {
    let mod_cfg = mock_modcfg();

    assert!(mod_cfg.is_mod_active("mod1").unwrap());
    assert!(!mod_cfg.is_mod_active("mod2").unwrap());
    assert!(mod_cfg.is_mod_active("mod3").unwrap());
    assert!(mod_cfg.is_mod_active("fake_mod").is_none());
}

#[test]
fn apply_presets() {
    // preset1 holds mod1; preset2 holds mod1 and mod2.
    let preset1 = enabled_preset("preset1", &["mod1"]);
    let preset2 = enabled_preset("preset2", &["mod1", "mod2"]);

    let mut mod_cfg = mock_modcfg();

    // Enable both presets and make sure both mods are enabled.
    let mut presets = vec![preset1, preset2];

    mod_cfg.apply_presets(&presets).unwrap();

    assert!(mod_cfg.is_mod_active("mod1").unwrap());
    assert!(mod_cfg.is_mod_active("mod2").unwrap());

    // Disable just preset 2, which has both mod1 and mod2. Before applying
    // presets again, both mods should be disabled. But, since preset 1 is
    // still enabled, after applying presets, mod1 should be enabled.
    presets[1].disable(&mut mod_cfg).unwrap();

    assert!(!mod_cfg.is_mod_active("mod1").unwrap());
    assert!(!mod_cfg.is_mod_active("mod2").unwrap());

    mod_cfg.apply_presets(&presets).unwrap();

    assert!(mod_cfg.is_mod_active("mod1").unwrap());
    assert!(!mod_cfg.is_mod_active("mod2").unwrap());
}

#[test]
fn apply_presets_missing_mods() {
    let preset1 = enabled_preset("preset1", &["mod1"]);
    let preset2 = enabled_preset("preset2", &["mod1", "mod2"]);

    // A registry without mod2, so that preset2 will fail to enable.
    let mut mod_cfg = ModCfg::new(
        vec![
            Mod {
                id: "mod1".to_string(),
                active: true,
                other: extra(),
            },
            Mod {
                id: "mod3".to_string(),
                active: true,
                other: extra(),
            },
        ],
        extra(),
    )
    .unwrap();

    let presets = vec![preset1, preset2];

    let result = mod_cfg.apply_presets(&presets);
    assert!(matches!(result, Err(Error::PresetsFailed { .. })));

    // Check that mod1 is still enabled.
    assert!(mod_cfg.is_mod_active("mod1").unwrap());
}

#[test]
fn batch_failure_reports_all_missing_and_changes_nothing() {
    let mut mod_cfg = mock_modcfg();
    mod_cfg.set_mod_active("mod3", false).unwrap();

    let result = mod_cfg.set_mods_active(
        &[
            "ghost_a".into(),
            "mod1".into(),
            "ghost_b".into(),
            "ghost_a".into(),
        ],
        true,
    );
    match result {
        Err(Error::MissingMods { mods }) => {
            // All missing ids, in request order, duplicates kept.
            assert_eq!(mods, vec!["ghost_a", "ghost_b", "ghost_a"]);
        }
        other => panic!("expected MissingMods, got {:?}", other),
    }

    // Every entry keeps its previous activation state.
    assert!(mod_cfg.is_mod_active("mod1").unwrap());
    assert!(!mod_cfg.is_mod_active("mod2").unwrap());
    assert!(!mod_cfg.is_mod_active("mod3").unwrap());
}

#[test]
fn batch_is_idempotent() {
    let mut once = mock_modcfg();
    once.set_mods_active(&["mod1".into(), "mod2".into()], true)
        .unwrap();

    let mut twice = mock_modcfg();
    twice
        .set_mods_active(&["mod1".into(), "mod2".into()], true)
        .unwrap();
    twice
        .set_mods_active(&["mod1".into(), "mod2".into()], true)
        .unwrap();

    for id in ["mod1", "mod2", "mod3"] {
        assert_eq!(once.is_mod_active(id), twice.is_mod_active(id));
    }
}

#[test]
fn union_of_overlapping_presets_in_any_order() {
    let pa = enabled_preset("pa", &["a", "b"]);
    let pb = enabled_preset("pb", &["b", "c"]);

    let fresh = || {
        ModCfg::new(
            vec![
                Mod {
                    id: "a".to_string(),
                    active: false,
                    other: HashMap::new(),
                },
                Mod {
                    id: "b".to_string(),
                    active: false,
                    other: HashMap::new(),
                },
                Mod {
                    id: "c".to_string(),
                    active: false,
                    other: HashMap::new(),
                },
            ],
            HashMap::new(),
        )
        .unwrap()
    };

    let mut one = fresh();
    one.apply_presets(&[pa, pb]).unwrap();

    let pa = enabled_preset("pa", &["a", "b"]);
    let pb = enabled_preset("pb", &["b", "c"]);
    let mut two = fresh();
    two.apply_presets(&[pb, pa]).unwrap();

    for id in ["a", "b", "c"] {
        assert!(one.is_mod_active(id).unwrap());
        assert!(two.is_mod_active(id).unwrap());
    }
}

#[test]
fn partial_failure_isolation() {
    let good = enabled_preset("good", &["mod1", "mod2"]);
    let bad = enabled_preset("bad", &["ghost"]);

    let mut mod_cfg = mock_modcfg();
    mod_cfg.set_all_mods_active(false).unwrap();

    let result = mod_cfg.apply_presets(&[good, bad]);
    match result {
        Err(Error::PresetsFailed { mods, presets }) => {
            assert_eq!(mods, vec!["ghost"]);
            assert_eq!(presets, vec!["bad"]);
        }
        other => panic!("expected PresetsFailed, got {:?}", other),
    }

    // The preset whose mods all exist is fully applied regardless.
    assert!(mod_cfg.is_mod_active("mod1").unwrap());
    assert!(mod_cfg.is_mod_active("mod2").unwrap());
}

#[test]
fn reconciliation_never_retracts() {
    // mod3 is active and referenced by no enabled preset.
    let unrelated = enabled_preset("unrelated", &["mod2"]);
    let disabled = Preset::new("disabled".to_string(), vec!["mod3".to_string()]);

    let mut mod_cfg = mock_modcfg();
    mod_cfg.apply_presets(&[unrelated, disabled]).unwrap();

    assert!(mod_cfg.is_mod_active("mod3").unwrap());
    assert!(mod_cfg.is_mod_active("mod2").unwrap());
    // mod1 was active before and stays active.
    assert!(mod_cfg.is_mod_active("mod1").unwrap());
}

#[test]
fn apply_no_presets_changes_nothing() {
    let mut mod_cfg = mock_modcfg();
    mod_cfg.apply_presets(&[]).unwrap();

    assert!(mod_cfg.is_mod_active("mod1").unwrap());
    assert!(!mod_cfg.is_mod_active("mod2").unwrap());
    assert!(mod_cfg.is_mod_active("mod3").unwrap());
}

#[test]
fn empty_batch_succeeds() {
    let mut mod_cfg = mock_modcfg();
    mod_cfg.set_mods_active(&[], true).unwrap();

    assert!(!mod_cfg.is_mod_active("mod2").unwrap());
}

#[test]
fn duplicate_ids_are_refused() {
    let mods = vec![
        Mod {
            id: "same".to_string(),
            active: true,
            other: HashMap::new(),
        },
        Mod {
            id: "same".to_string(),
            active: false,
            other: HashMap::new(),
        },
    ];
    assert!(ModCfg::new(mods, HashMap::new()).is_none());
}

#[test]
fn extra_data_is_preserved_across_mutation() {
    let mut mod_cfg = mock_modcfg();
    mod_cfg
        .set_mods_active(&["mod1".into(), "mod2".into()], false)
        .unwrap();

    assert_eq!(
        mod_cfg.other.get("key"),
        Some(&serde_json::Value::String("value".to_string()))
    );
    for entry in &mod_cfg.mods {
        assert_eq!(
            entry.other.get("key"),
            Some(&serde_json::Value::String("value".to_string()))
        );
    }
}

#[test]
fn get_mods_lists_all_ids() {
    let mod_cfg = mock_modcfg();
    let mut ids = mod_cfg.get_mods();
    ids.sort();
    assert_eq!(ids, vec!["mod1", "mod2", "mod3"]);
}
