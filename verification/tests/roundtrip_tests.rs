use hsapi::flatten::IdGen;
use hsapi::tree::Project;
use hsapi::wire::{
    LowLevelAbility, LowLevelBlock, LowLevelObject, LowLevelProject, LowLevelRule, LowLevelScene,
    LowLevelStageSize,
};

fn sample_wire() -> LowLevelProject {
    let block = |t: i64| LowLevelBlock {
        hs_type: Some(t),
        description: "".to_string(),
        block_class: "method".to_string(),
    };
    LowLevelProject {
        scenes: vec![
            LowLevelScene {
                name: "one".to_string(),
                id: "s1".to_string(),
                objects: vec!["o1".to_string(), "o2".to_string()],
            },
            LowLevelScene {
                name: "two".to_string(),
                id: "s2".to_string(),
                objects: vec!["o2".to_string()],
            },
        ],
        stage_size: LowLevelStageSize { width: 1024, height: 768 },
        player_version: "3.0.0".to_string(),
        version: 34,
        abilities: vec![
            LowLevelAbility {
                ability_id: "a1".to_string(),
                name: None,
                created_at: 7,
                blocks: vec![block(10), block(11)],
            },
            LowLevelAbility {
                ability_id: "a2".to_string(),
                name: None,
                created_at: 7,
                blocks: vec![block(20)],
            },
        ],
        font_size: 80,
        objects: vec![
            LowLevelObject {
                object_id: "o1".to_string(),
                hs_type: Some(3),
                filename: "cat.png".to_string(),
                width: "150".to_string(),
                height: "150".to_string(),
                name: "cat".to_string(),
                rules: vec!["r1".to_string()],
                x_position: "12".to_string(),
                y_position: "34".to_string(),
                resize_scale: "1".to_string(),
                rotation: "90".to_string(),
                text: None,
                ability_id: "a1".to_string(),
            },
            LowLevelObject {
                object_id: "o2".to_string(),
                hs_type: Some(4),
                filename: "dog.png".to_string(),
                width: "80".to_string(),
                height: "80".to_string(),
                name: "dog".to_string(),
                rules: vec![],
                x_position: "-5.5".to_string(),
                y_position: "0".to_string(),
                resize_scale: "2".to_string(),
                rotation: "0".to_string(),
                text: None,
                ability_id: "none".to_string(),
            },
        ],
        requires_beta_editor: false,
        rules: vec![LowLevelRule {
            id: "r1".to_string(),
            rule_block_type: Some(69),
            object_id: None,
            ability_id: "a2".to_string(),
        }],
    }
}

#[test]
fn round_trip_preserves_tree_exactly() {
    let tree = Project::from_low_level(&sample_wire());
    let mut gen = IdGen::with_prefix("p".to_string());
    let saved = tree.to_low_level_with(&mut gen, 42);
    let back = Project::from_low_level(&saved);
    assert_eq!(back.scenes.len(), tree.scenes.len());
    for (a, b) in back.scenes.iter().zip(tree.scenes.iter()) {
        assert_eq!(a.name, b.name);
        assert_eq!(a.objects.len(), b.objects.len());
        for (x, y) in a.objects.iter().zip(b.objects.iter()) {
            assert_eq!(x.name, y.name);
            assert_eq!(x.hs_type.filename, y.hs_type.filename);
            assert_eq!(x.hs_type.hs_type, y.hs_type.hs_type);
            assert_eq!(x.hs_type.width, y.hs_type.width);
            assert_eq!(x.hs_type.height, y.hs_type.height);
            assert_eq!(x.x_position, y.x_position);
            assert_eq!(x.y_position, y.y_position);
            assert_eq!(x.resize_scale, y.resize_scale);
            assert_eq!(x.rotation, y.rotation);
            assert_eq!(x.rules.len(), y.rules.len());
        }
    }
    assert_eq!(back.block_tags(), tree.block_tags());
}

#[test]
fn save_mints_sequential_prefixed_identifiers() {
    // One scene, one object, one rule: minting order is the pre-game
    // ability, the rule's body ability, the rule, the object, the scene.
    let mut p = sample_wire();
    p.scenes.truncate(1);
    p.scenes[0].objects.truncate(1);
    let tree = Project::from_low_level(&p);
    let mut gen = IdGen::with_prefix("p".to_string());
    let saved = tree.to_low_level_with(&mut gen, 42);
    assert_eq!(saved.abilities.len(), 2);
    assert_eq!(saved.abilities[0].ability_id, "p-0");
    assert_eq!(saved.abilities[1].ability_id, "p-1");
    assert_eq!(saved.rules.len(), 1);
    assert_eq!(saved.rules[0].id, "p-2");
    assert_eq!(saved.objects.len(), 1);
    assert_eq!(saved.objects[0].object_id, "p-3");
    assert_eq!(saved.scenes.len(), 1);
    assert_eq!(saved.scenes[0].id, "p-4");
    // The references are wired to the records just appended.
    assert_eq!(saved.objects[0].ability_id, "p-0");
    assert_eq!(saved.rules[0].ability_id, "p-1");
    assert_eq!(saved.objects[0].rules, vec!["p-2".to_string()]);
    assert_eq!(saved.scenes[0].objects, vec!["p-3".to_string()]);
}

#[test]
fn count_ids_matches_minting() {
    // One scene, one object, one rule: two abilities, the rule, the
    // object and the scene make five identifiers.
    let mut p = sample_wire();
    p.scenes.truncate(1);
    p.scenes[0].objects.truncate(1);
    let tree = Project::from_low_level(&p);
    assert_eq!(tree.count_ids(), Some(5));
    // The full fixture: 2 + (2 + 2) + (2 + 0) + (2 + 0) identifiers.
    let whole = Project::from_low_level(&sample_wire());
    assert_eq!(whole.count_ids(), Some(10));
}

#[test]
fn save_emits_fixed_container_constants_and_block_fields() {
    let tree = Project::from_low_level(&sample_wire());
    let mut gen = IdGen::with_prefix("q".to_string());
    let saved = tree.to_low_level_with(&mut gen, 42);
    assert_eq!(saved.player_version, "3.0.0");
    assert_eq!(saved.version, 34);
    assert_eq!(saved.font_size, 80);
    assert_eq!(saved.stage_size.width, 1024);
    assert_eq!(saved.stage_size.height, 768);
    assert!(!saved.requires_beta_editor);
    for a in &saved.abilities {
        assert_eq!(a.created_at, 42);
        for b in &a.blocks {
            assert_eq!(b.block_class, "method");
            assert_eq!(b.description, "TODO: Description");
            assert!(b.hs_type.is_some());
        }
    }
    for r in &saved.rules {
        assert!(r.object_id.is_none());
    }
    for o in &saved.objects {
        assert!(o.text.is_none());
    }
}

#[test]
fn random_generator_save_round_trips() {
    let tree = Project::from_low_level(&sample_wire());
    let saved = tree.to_low_level().expect("tree small enough to save");
    let back = Project::from_low_level(&saved);
    assert_eq!(back.block_tags(), tree.block_tags());
    for a in &saved.abilities {
        assert!(a.created_at >= 0);
    }
}

#[test]
fn fresh_record_constructors_mint_uuid_identifiers() {
    let s = LowLevelScene::new("main".to_string(), vec!["o1".to_string()]);
    assert_eq!(s.id.len(), 36);
    assert_eq!(s.name, "main");
    assert_eq!(s.objects, vec!["o1".to_string()]);
    let a = LowLevelAbility::new();
    assert_eq!(a.ability_id.len(), 36);
    assert!(a.created_at >= 0);
    assert!(a.blocks.is_empty());
    let r = LowLevelRule::new(7, "a1".to_string());
    assert_eq!(r.id.len(), 36);
    assert_eq!(r.rule_block_type, Some(7));
    let o = LowLevelObject::new(
        1,
        "cat.png".to_string(),
        "150".to_string(),
        "150".to_string(),
        "cat".to_string(),
        vec![],
        "0".to_string(),
        "0".to_string(),
        "1".to_string(),
        "0".to_string(),
        "a1".to_string(),
        None,
    );
    assert_eq!(o.object_id.len(), 36);
    // Two minted identifiers are 36 characters of hex and hyphens.
    assert_ne!(s.id, a.ability_id);
}
