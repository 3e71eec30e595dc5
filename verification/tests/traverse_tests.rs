use hsapi::flatten::IdGen;
use hsapi::tree::Project;
use hsapi::wire::{
    LowLevelAbility, LowLevelBlock, LowLevelObject, LowLevelProject, LowLevelRule, LowLevelScene,
    LowLevelStageSize,
};

fn block(t: i64) -> LowLevelBlock {
    LowLevelBlock {
        hs_type: Some(t),
        description: "".to_string(),
        block_class: "method".to_string(),
    }
}

fn wire_fixture() -> LowLevelProject {
    // Two scenes; the first object carries two pre-game blocks and two
    // rules (the second rule dangling, so it has no event), the second
    // scene one object with one rule.
    LowLevelProject {
        scenes: vec![
            LowLevelScene {
                name: "one".to_string(),
                id: "s1".to_string(),
                objects: vec!["o1".to_string()],
            },
            LowLevelScene {
                name: "two".to_string(),
                id: "s2".to_string(),
                objects: vec!["o2".to_string()],
            },
        ],
        stage_size: LowLevelStageSize { width: 1024, height: 768 },
        player_version: "3.0.0".to_string(),
        version: 34,
        abilities: vec![
            LowLevelAbility {
                ability_id: "pre1".to_string(),
                name: None,
                created_at: 0,
                blocks: vec![block(1), block(2)],
            },
            LowLevelAbility {
                ability_id: "body1".to_string(),
                name: None,
                created_at: 0,
                blocks: vec![block(69), block(4)],
            },
            LowLevelAbility {
                ability_id: "body2".to_string(),
                name: None,
                created_at: 0,
                blocks: vec![block(5)],
            },
        ],
        font_size: 80,
        objects: vec![
            LowLevelObject {
                object_id: "o1".to_string(),
                hs_type: Some(0),
                filename: "a.png".to_string(),
                width: "150".to_string(),
                height: "150".to_string(),
                name: "a".to_string(),
                rules: vec!["r1".to_string(), "dangling".to_string()],
                x_position: "0".to_string(),
                y_position: "0".to_string(),
                resize_scale: "1".to_string(),
                rotation: "0".to_string(),
                text: None,
                ability_id: "pre1".to_string(),
            },
            LowLevelObject {
                object_id: "o2".to_string(),
                hs_type: Some(0),
                filename: "b.png".to_string(),
                width: "150".to_string(),
                height: "150".to_string(),
                name: "b".to_string(),
                rules: vec!["r2".to_string()],
                x_position: "0".to_string(),
                y_position: "0".to_string(),
                resize_scale: "1".to_string(),
                rotation: "0".to_string(),
                text: None,
                ability_id: "nothing".to_string(),
            },
        ],
        requires_beta_editor: false,
        rules: vec![
            LowLevelRule {
                id: "r1".to_string(),
                rule_block_type: Some(69),
                object_id: None,
                ability_id: "body1".to_string(),
            },
            LowLevelRule {
                id: "r2".to_string(),
                rule_block_type: Some(8),
                object_id: None,
                ability_id: "body2".to_string(),
            },
        ],
    }
}

#[test]
fn traversal_is_complete_and_ordered() {
    let tree = Project::from_low_level(&wire_fixture());
    // Scene one: pre-game 1, 2; rule r1's event 69 then body 69, 4; the
    // dangling rule contributes nothing.  Scene two: event 8, body 5.
    // That is two pre-game blocks, two events, and three body blocks.
    let tags = tree.block_tags();
    assert_eq!(tags, vec![1, 2, 69, 69, 4, 8, 5]);
    assert_eq!(tags.len(), 2 + 2 + 3);
}

#[test]
fn rewrite_touches_every_matching_block_and_nothing_else() {
    let mut tree = Project::from_low_level(&wire_fixture());
    tree.replace_block_tags(69, 22);
    assert_eq!(tree.block_tags(), vec![1, 2, 22, 22, 4, 8, 5]);
    // Attributes survive the rewrite untouched.
    assert_eq!(tree.scenes[0].objects[0].name, "a");
    assert_eq!(tree.scenes[1].objects[0].hs_type.filename, "b.png");
}

#[test]
fn scenario_rewrite_trigger_through_save_and_reload() {
    // One scene, one object, one rule whose trigger type tag is 69:
    // rewrite 69 to 22, save, re-parse, and the resolved event carries 22.
    let mut p = wire_fixture();
    p.scenes.truncate(1);
    p.objects.truncate(1);
    p.objects[0].rules.truncate(1);
    p.objects[0].ability_id = "nothing".to_string();
    let mut tree = Project::from_low_level(&p);
    tree.replace_block_tags(69, 22);
    let mut gen = IdGen::with_prefix("x".to_string());
    let saved = tree.to_low_level_with(&mut gen, 0);
    let back = Project::from_low_level(&saved);
    let rule = &back.scenes[0].objects[0].rules[0];
    let event = rule.event.as_ref().expect("rule resolved from the wire has an event");
    let hsapi::tree::BlockType::ArbitraryID(tag) = event.hs_type;
    assert_eq!(tag, 22);
    assert_eq!(back.block_tags(), vec![22, 22, 4]);
}

#[test]
fn rewrite_is_visible_in_saved_records() {
    let mut tree = Project::from_low_level(&wire_fixture());
    tree.replace_block_tags(69, 22);
    let mut gen = IdGen::with_prefix("y".to_string());
    let saved = tree.to_low_level_with(&mut gen, 0);
    let mut seen = vec![];
    for a in &saved.abilities {
        for b in &a.blocks {
            seen.push(b.hs_type.unwrap());
        }
    }
    assert!(!seen.contains(&69));
    assert!(seen.contains(&22));
    for r in &saved.rules {
        assert_ne!(r.rule_block_type, Some(69));
    }
}

#[test]
fn map_rewrite_applies_first_matching_pair() {
    let mut tree = Project::from_low_level(&wire_fixture());
    tree.rewrite_block_tags(&vec![(69, 22), (69, 99), (5, 50)]);
    assert_eq!(tree.block_tags(), vec![1, 2, 22, 22, 4, 8, 50]);
    assert_eq!(tree.scenes[0].objects[0].name, "a");
}

#[test]
fn map_rewrite_with_empty_map_changes_nothing() {
    let mut tree = Project::from_low_level(&wire_fixture());
    let before = tree.block_tags();
    tree.rewrite_block_tags(&vec![]);
    assert_eq!(tree.block_tags(), before);
}

#[test]
fn ability_timestamps_measure_from_2001() {
    assert_eq!(hsapi::outside::secs_since_2001(978307200), 0);
    assert_eq!(hsapi::outside::secs_since_2001(978307200 + 12345), 12345);
    // A clock reading before the epoch clamps to zero.
    assert_eq!(hsapi::outside::secs_since_2001(0), 0);
    assert_eq!(hsapi::outside::secs_since_2001(u64::MAX), i64::MAX);
}

#[test]
fn per_level_tags_compose() {
    let tree = Project::from_low_level(&wire_fixture());
    let scene_tags: Vec<i64> = tree
        .scenes
        .iter()
        .flat_map(|s| s.block_tags())
        .collect();
    assert_eq!(scene_tags, tree.block_tags());
    let object_tags: Vec<i64> = tree.scenes[0]
        .objects
        .iter()
        .flat_map(|o| o.block_tags())
        .collect();
    assert_eq!(object_tags, tree.scenes[0].block_tags());
    let rule_tags = tree.scenes[0].objects[0].rules[0].block_tags();
    assert_eq!(rule_tags, vec![69, 69, 4]);
}

#[test]
fn placeholder_rule_round_trips_as_no_trigger() {
    // A placeholder rule has no event; saving writes the fixed no-trigger
    // tag, so re-parsing yields an event carrying 22.  This is the one
    // shape a round trip does not restore verbatim.
    let mut p = wire_fixture();
    p.scenes.truncate(1);
    p.objects.truncate(1);
    p.objects[0].rules = vec!["dangling".to_string()];
    p.objects[0].ability_id = "nothing".to_string();
    let tree = Project::from_low_level(&p);
    assert_eq!(tree.block_tags(), Vec::<i64>::new());
    let mut gen = IdGen::with_prefix("z".to_string());
    let saved = tree.to_low_level_with(&mut gen, 0);
    assert_eq!(saved.rules[0].rule_block_type, Some(22));
    let back = Project::from_low_level(&saved);
    assert_eq!(back.block_tags(), vec![22]);
}
