use hsapi::tree::Project;
use hsapi::wire::{
    LowLevelAbility, LowLevelBlock, LowLevelObject, LowLevelProject, LowLevelRule, LowLevelScene,
    LowLevelStageSize,
};

fn empty_container() -> LowLevelProject {
    LowLevelProject {
        scenes: vec![],
        stage_size: LowLevelStageSize { width: 1024, height: 768 },
        player_version: "3.0.0".to_string(),
        version: 34,
        abilities: vec![],
        font_size: 80,
        objects: vec![],
        requires_beta_editor: false,
        rules: vec![],
    }
}

fn object(id: &str, rules: Vec<String>, ability_id: &str) -> LowLevelObject {
    LowLevelObject {
        object_id: id.to_string(),
        hs_type: Some(1),
        filename: "sprite.png".to_string(),
        width: "100".to_string(),
        height: "200".to_string(),
        name: "actor".to_string(),
        rules,
        x_position: "10".to_string(),
        y_position: "20".to_string(),
        resize_scale: "1".to_string(),
        rotation: "0".to_string(),
        text: None,
        ability_id: ability_id.to_string(),
    }
}

fn ability(id: &str, tags: Vec<i64>) -> LowLevelAbility {
    LowLevelAbility {
        ability_id: id.to_string(),
        name: None,
        created_at: 0,
        blocks: tags
            .into_iter()
            .map(|t| LowLevelBlock {
                hs_type: Some(t),
                description: "".to_string(),
                block_class: "method".to_string(),
            })
            .collect(),
    }
}

#[test]
fn resolves_structure_in_order() {
    let mut p = empty_container();
    p.scenes.push(LowLevelScene {
        name: "main".to_string(),
        id: "s1".to_string(),
        objects: vec!["o1".to_string()],
    });
    p.objects.push(object("o1", vec!["r1".to_string()], "a-pre"));
    p.abilities.push(ability("a-pre", vec![5, 6]));
    p.abilities.push(ability("a-body", vec![7]));
    p.rules.push(LowLevelRule {
        id: "r1".to_string(),
        rule_block_type: Some(69),
        object_id: None,
        ability_id: "a-body".to_string(),
    });
    let tree = Project::from_low_level(&p);
    assert_eq!(tree.scenes.len(), 1);
    assert_eq!(tree.scenes[0].name, "main");
    assert_eq!(tree.scenes[0].objects.len(), 1);
    let o = &tree.scenes[0].objects[0];
    assert_eq!(o.before_game_starts_blocks.len(), 2);
    assert_eq!(o.rules.len(), 1);
    assert_eq!(o.rules[0].blocks.len(), 1);
    assert!(o.rules[0].event.is_some());
    // Depth-first order: pre-game blocks, then the rule's event, then its body.
    assert_eq!(tree.block_tags(), vec![5, 6, 69, 7]);
}

#[test]
fn missing_object_resolves_to_placeholder() {
    // A scene listing an object identifier with no matching record.
    let mut p = empty_container();
    p.scenes.push(LowLevelScene {
        name: "main".to_string(),
        id: "s1".to_string(),
        objects: vec!["ghost".to_string()],
    });
    let tree = Project::from_low_level(&p);
    assert_eq!(tree.scenes[0].objects.len(), 1);
    let o = &tree.scenes[0].objects[0];
    assert_eq!(o.hs_type.filename, "monkey.png");
    assert_eq!(o.hs_type.hs_type, 0);
    assert_eq!(o.hs_type.width, "150");
    assert_eq!(o.hs_type.height, "150");
    assert_eq!(o.x_position, "0");
    assert_eq!(o.y_position, "0");
    assert_eq!(o.resize_scale, "1");
    assert_eq!(o.rotation, "0");
    assert_eq!(o.name, "");
    assert!(o.before_game_starts_blocks.is_empty());
    assert!(o.rules.is_empty());
}

#[test]
fn missing_object_keeps_scene_position() {
    let mut p = empty_container();
    p.scenes.push(LowLevelScene {
        name: "main".to_string(),
        id: "s1".to_string(),
        objects: vec!["o1".to_string(), "ghost".to_string(), "o1".to_string()],
    });
    p.objects.push(object("o1", vec![], "none"));
    let tree = Project::from_low_level(&p);
    let objs = &tree.scenes[0].objects;
    assert_eq!(objs.len(), 3);
    assert_eq!(objs[0].hs_type.filename, "sprite.png");
    assert_eq!(objs[1].hs_type.filename, "monkey.png");
    assert_eq!(objs[2].hs_type.filename, "sprite.png");
}

#[test]
fn missing_rule_resolves_to_placeholder_rule() {
    let mut p = empty_container();
    p.scenes.push(LowLevelScene {
        name: "main".to_string(),
        id: "s1".to_string(),
        objects: vec!["o1".to_string()],
    });
    p.objects.push(object("o1", vec!["nowhere".to_string()], "none"));
    let tree = Project::from_low_level(&p);
    let o = &tree.scenes[0].objects[0];
    assert_eq!(o.rules.len(), 1);
    assert!(o.rules[0].event.is_none());
    assert!(o.rules[0].blocks.is_empty());
    // A rule without an event contributes nothing to the traversal.
    assert_eq!(tree.block_tags(), Vec::<i64>::new());
}

#[test]
fn numeric_fallbacks_apply_per_field() {
    let mut p = empty_container();
    p.scenes.push(LowLevelScene {
        name: "main".to_string(),
        id: "s1".to_string(),
        objects: vec!["o1".to_string()],
    });
    let mut broken = object("o1", vec![], "none");
    broken.x_position = "abc".to_string();
    broken.width = "oops".to_string();
    broken.rotation = "-45.5".to_string();
    p.objects.push(broken);
    let tree = Project::from_low_level(&p);
    let o = &tree.scenes[0].objects[0];
    assert_eq!(o.x_position, "0");
    assert_eq!(o.y_position, "20");
    assert_eq!(o.hs_type.width, "150");
    assert_eq!(o.hs_type.height, "200");
    assert_eq!(o.rotation, "-45.5");
}

#[test]
fn unreadable_tags_resolve_to_sentinel() {
    let mut p = empty_container();
    p.scenes.push(LowLevelScene {
        name: "main".to_string(),
        id: "s1".to_string(),
        objects: vec!["o1".to_string()],
    });
    p.objects.push(object("o1", vec!["r1".to_string()], "a-pre"));
    p.abilities.push(LowLevelAbility {
        ability_id: "a-pre".to_string(),
        name: None,
        created_at: 0,
        blocks: vec![LowLevelBlock {
            hs_type: None,
            description: "".to_string(),
            block_class: "method".to_string(),
        }],
    });
    p.rules.push(LowLevelRule {
        id: "r1".to_string(),
        rule_block_type: None,
        object_id: None,
        ability_id: "missing".to_string(),
    });
    let tree = Project::from_low_level(&p);
    assert_eq!(tree.block_tags(), vec![-10140001, -10140001]);
}

#[test]
fn first_match_wins_on_duplicate_identifiers() {
    let mut p = empty_container();
    p.scenes.push(LowLevelScene {
        name: "main".to_string(),
        id: "s1".to_string(),
        objects: vec!["o1".to_string()],
    });
    let mut first = object("o1", vec![], "none");
    first.name = "first".to_string();
    let mut second = object("o1", vec![], "none");
    second.name = "second".to_string();
    p.objects.push(first);
    p.objects.push(second);
    let tree = Project::from_low_level(&p);
    assert_eq!(tree.scenes[0].objects[0].name, "first");
}

#[test]
fn index_lookup_finds_records() {
    let mut p = empty_container();
    p.objects.push(object("o1", vec![], "none"));
    p.rules.push(LowLevelRule {
        id: "r1".to_string(),
        rule_block_type: Some(1),
        object_id: None,
        ability_id: "a1".to_string(),
    });
    p.abilities.push(ability("a1", vec![]));
    assert!(p.object_with_id(&"o1".to_string()).is_some());
    assert!(p.object_with_id(&"o2".to_string()).is_none());
    assert!(p.rule_with_id(&"r1".to_string()).is_some());
    assert!(p.rule_with_id(&"r2".to_string()).is_none());
    assert!(p.ability_with_id(&"a1".to_string()).is_some());
    assert!(p.ability_with_id(&"a2".to_string()).is_none());
}

#[test]
fn is_numeric_text_grammar() {
    assert!(hsapi::is_numeric_text("0"));
    assert!(hsapi::is_numeric_text("150"));
    assert!(hsapi::is_numeric_text("-3.5"));
    assert!(hsapi::is_numeric_text("10.25"));
    assert!(!hsapi::is_numeric_text(""));
    assert!(!hsapi::is_numeric_text("-"));
    assert!(!hsapi::is_numeric_text("abc"));
    assert!(!hsapi::is_numeric_text("1."));
    assert!(!hsapi::is_numeric_text(".5"));
    assert!(!hsapi::is_numeric_text("1.5.2"));
    assert!(!hsapi::is_numeric_text("12a"));
    assert!(!hsapi::is_numeric_text("--1"));
}
