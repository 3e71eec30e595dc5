//! The graph resolver: the load path.  Walks a wire container starting
//! from its scenes, follows identifier references (scene to object, object
//! to ability and rules, rule to ability), and produces the owned tree.
//! Every referential gap is absorbed: a dangling object identifier becomes
//! a placeholder object, a dangling rule identifier a placeholder rule, a
//! dangling ability identifier an empty block list, non-numeric numeric
//! text the documented per-field default, and an unusable type tag the
//! sentinel tag.

use vstd::prelude::*;

use crate::text::{is_num, is_numeric_text};
use crate::tree::{
    new_obj_t, wf_obj, wf_scene, wf_tree, Block, BlockT, BlockType, ObjT, Object, ObjectType,
    OTypeT, ProjT, Project, Rule, RuleT, Scene, SceneT,
};
use crate::wire::{
    find_abil, find_obj, find_rule, AbilW, BlockW, LowLevelAbility, LowLevelBlock, LowLevelObject,
    LowLevelProject, LowLevelRule, LowLevelScene, ObjW, ProjW, RuleW, SceneW, SENTINEL_TAG,
};

verus! {

broadcast use vstd::seq_lib::group_seq_properties;

// ---------------------------------------------------------------------
// The resolution, as a mathematical function of the wire container.
// ---------------------------------------------------------------------

pub open spec fn tag_or_sentinel(t: Option<int>) -> int {
    match t {
        Option::None => SENTINEL_TAG as int,
        Option::Some(v) => v,
    }
}

pub open spec fn tag_or_zero(t: Option<int>) -> int {
    match t {
        Option::None => 0,
        Option::Some(v) => v,
    }
}

/// Numeric text is kept; anything else becomes the field's default.
pub open spec fn num_or(s: Seq<char>, d: Seq<char>) -> Seq<char> {
    if is_num(s) {
        s
    } else {
        d
    }
}

pub open spec fn rs_block(b: BlockW) -> BlockT {
    BlockT { tag: tag_or_sentinel(b.tag) }
}

pub open spec fn rs_block_list(bs: Seq<BlockW>) -> Seq<BlockT> {
    bs.map_values(|b: BlockW| rs_block(b))
}

/// The ordered blocks of an optional ability: empty when the reference
/// dangles.
pub open spec fn rs_blocks_of(ab: Option<AbilW>) -> Seq<BlockT> {
    match ab {
        Option::None => Seq::empty(),
        Option::Some(a) => rs_block_list(a.blocks),
    }
}

/// A resolved rule record: the trigger event is synthesized from the
/// record's trigger-type field, never copied from a wire block.
pub open spec fn rs_rule_record(p: ProjW, r: RuleW) -> RuleT {
    RuleT {
        event: Option::Some(BlockT { tag: tag_or_sentinel(r.tag) }),
        body: rs_blocks_of(find_abil(p.abilities, r.ability_id)),
    }
}

/// A dangling rule identifier resolves to a placeholder rule with no
/// event and no body.
pub open spec fn rs_rule(p: ProjW, id: Seq<char>) -> RuleT {
    match find_rule(p.rules, id) {
        Option::None => RuleT { event: Option::None, body: Seq::empty() },
        Option::Some(r) => rs_rule_record(p, r),
    }
}

pub open spec fn rs_rule_list(p: ProjW, ids: Seq<Seq<char>>) -> Seq<RuleT> {
    ids.map_values(|id: Seq<char>| rs_rule(p, id))
}

/// The placeholder substituted for a dangling object identifier: neutral
/// type tag, fallback sprite, default size, origin position, unit scale,
/// zero rotation, empty name.
pub open spec fn placeholder_obj() -> ObjT {
    new_obj_t(
        OTypeT { tag: 0, filename: "monkey.png"@, width: "150"@, height: "150"@ },
        Seq::empty(),
    )
}

pub open spec fn rs_object_record(p: ProjW, o: ObjW) -> ObjT {
    ObjT {
        pre: rs_blocks_of(find_abil(p.abilities, o.ability_id)),
        rules: rs_rule_list(p, o.rules),
        otype: OTypeT {
            tag: tag_or_zero(o.tag),
            filename: o.filename,
            width: num_or(o.width, "150"@),
            height: num_or(o.height, "150"@),
        },
        x: num_or(o.x_position, "0"@),
        y: num_or(o.y_position, "0"@),
        scale: num_or(o.resize_scale, "0"@),
        rot: num_or(o.rotation, "0"@),
        name: o.name,
    }
}

pub open spec fn rs_object(p: ProjW, id: Seq<char>) -> ObjT {
    match find_obj(p.objects, id) {
        Option::None => placeholder_obj(),
        Option::Some(o) => rs_object_record(p, o),
    }
}

pub open spec fn rs_scene(p: ProjW, s: SceneW) -> SceneT {
    SceneT { name: s.name, objects: s.objects.map_values(|id: Seq<char>| rs_object(p, id)) }
}

/// The whole load path, scenes in file order.
pub open spec fn resolve_spec(p: ProjW) -> ProjT {
    ProjT { scenes: p.scenes.map_values(|s: SceneW| rs_scene(p, s)) }
}

// ---------------------------------------------------------------------
// Executable resolution.
// ---------------------------------------------------------------------

/// Keeps numeric text, replaces anything else by the default `d`.
fn numeric_or(s: &String, d: &'static str) -> (r: String)
    ensures
        r@ == num_or(s@, d@),
{
    if is_numeric_text(s.as_str()) {
        s.clone()
    } else {
        String::from_str(d)
    }
}

impl Block {
    /// One wire block, type tag only; description, class and parameters
    /// are not carried by the tree model.
    pub fn from_low_level(low_level_block: &LowLevelBlock) -> (r: Self)
        ensures
            r@ == rs_block(low_level_block@),
    {
        let tag: i64 = match low_level_block.hs_type {
            None => SENTINEL_TAG,
            Some(t) => t,
        };
        Block { hs_type: BlockType::ArbitraryID(tag) }
    }

    /// The blocks of one ability, in order, one tree block each.
    pub fn vec_from_low_level_ability(low_level_ability: &LowLevelAbility) -> (r: Vec<Block>)
        ensures
            r@.map_values(|b: Block| b@) =~= rs_block_list(low_level_ability@.blocks),
    {
        let ghost target = rs_block_list(low_level_ability@.blocks);
        let mut r: Vec<Block> = Vec::new();
        let mut i: usize = 0;
        while i < low_level_ability.blocks.len()
            invariant
                i <= low_level_ability.blocks.len(),
                target == rs_block_list(low_level_ability@.blocks),
                low_level_ability@.blocks.len() == low_level_ability.blocks.len(),
                r@.len() == i,
                forall|k: int| 0 <= k < i ==> (#[trigger] r@[k])@ == target[k],
            decreases low_level_ability.blocks.len() - i,
        {
            let b = Block::from_low_level(&low_level_ability.blocks[i]);
            proof {
                assert(low_level_ability@.blocks[i as int] == low_level_ability.blocks@[i as int]@);
                assert(b@ == target[i as int]);
            }
            r.push(b);
            i = i + 1;
        }
        proof {
            assert(r@.map_values(|b: Block| b@) =~= target);
        }
        r
    }
}

/// The blocks of an optional ability lookup result.
fn blocks_of_lookup(found: Option<&LowLevelAbility>) -> (r: Vec<Block>)
    ensures
        r@.map_values(|b: Block| b@) =~= rs_blocks_of(
            match found {
                Option::None => Option::None,
                Option::Some(a) => Option::Some(a@),
            },
        ),
{
    match found {
        None => Vec::new(),
        Some(ability) => Block::vec_from_low_level_ability(ability),
    }
}

impl Rule {
    /// One wire rule record: its event is synthesized from the trigger
    /// type, its body resolved through the ability reference.
    pub fn from_low_level(low_level_rule: &LowLevelRule, low_level_project: &LowLevelProject) -> (r:
        Self)
        ensures
            r@ =~= rs_rule_record(low_level_project@, low_level_rule@),
    {
        let tag: i64 = match low_level_rule.rule_block_type {
            None => SENTINEL_TAG,
            Some(t) => t,
        };
        let event = Block { hs_type: BlockType::ArbitraryID(tag) };
        let blocks = blocks_of_lookup(low_level_project.ability_with_id(&low_level_rule.ability_id));
        Rule { event: Some(event), blocks }
    }
}

impl Object {
    /// One wire object record: pre-game blocks through the ability
    /// reference, rules through the rule references, attributes with
    /// their per-field numeric fallbacks.
    pub fn from_low_level(
        low_level_object: &LowLevelObject,
        low_level_project: &LowLevelProject,
    ) -> (r: Self)
        ensures
            r@ =~= rs_object_record(low_level_project@, low_level_object@),
    {
        let before_game_starts_blocks = blocks_of_lookup(
            low_level_project.ability_with_id(&low_level_object.ability_id),
        );
        let ghost rtarget = rs_rule_list(low_level_project@, low_level_object@.rules);
        let mut rules: Vec<Rule> = Vec::new();
        let mut i: usize = 0;
        while i < low_level_object.rules.len()
            invariant
                i <= low_level_object.rules.len(),
                rtarget == rs_rule_list(low_level_project@, low_level_object@.rules),
                low_level_object@.rules.len() == low_level_object.rules.len(),
                rules@.len() == i,
                forall|k: int| 0 <= k < i ==> (#[trigger] rules@[k])@ == rtarget[k],
            decreases low_level_object.rules.len() - i,
        {
            proof {
                assert(low_level_object@.rules[i as int] == low_level_object.rules@[i as int]@);
            }
            let rule = match low_level_project.rule_with_id(&low_level_object.rules[i]) {
                None => Rule::new(),
                Some(low_level_rule) => Rule::from_low_level(low_level_rule, low_level_project),
            };
            proof {
                assert(rule@ =~= rtarget[i as int]);
            }
            rules.push(rule);
            i = i + 1;
        }
        proof {
            assert(rules@.map_values(|r: Rule| r@) =~= rtarget);
        }
        let tag: i64 = match low_level_object.hs_type {
            None => 0,
            Some(t) => t,
        };
        let hs_type = ObjectType {
            hs_type: tag,
            filename: low_level_object.filename.clone(),
            width: numeric_or(&low_level_object.width, "150"),
            height: numeric_or(&low_level_object.height, "150"),
        };
        Object {
            before_game_starts_blocks,
            rules,
            hs_type,
            x_position: numeric_or(&low_level_object.x_position, "0"),
            y_position: numeric_or(&low_level_object.y_position, "0"),
            resize_scale: numeric_or(&low_level_object.resize_scale, "0"),
            rotation: numeric_or(&low_level_object.rotation, "0"),
            name: low_level_object.name.clone(),
        }
    }
}

impl Scene {
    /// One wire scene: each listed object identifier resolves to its
    /// record, or to the documented placeholder when it dangles.
    pub fn from_low_level(low_level_scene: &LowLevelScene, low_level_project: &LowLevelProject) -> (
        r: Self)
        ensures
            r@ =~= rs_scene(low_level_project@, low_level_scene@),
    {
        let ghost otarget = rs_scene(low_level_project@, low_level_scene@).objects;
        let mut objects: Vec<Object> = Vec::new();
        let mut i: usize = 0;
        while i < low_level_scene.objects.len()
            invariant
                i <= low_level_scene.objects.len(),
                otarget == rs_scene(low_level_project@, low_level_scene@).objects,
                low_level_scene@.objects.len() == low_level_scene.objects.len(),
                objects@.len() == i,
                forall|k: int| 0 <= k < i ==> (#[trigger] objects@[k])@ == otarget[k],
            decreases low_level_scene.objects.len() - i,
        {
            proof {
                assert(low_level_scene@.objects[i as int] == low_level_scene.objects@[i as int]@);
            }
            let object = match low_level_project.object_with_id(&low_level_scene.objects[i]) {
                None => Object::new(
                    ObjectType {
                        hs_type: 0,
                        filename: String::from_str("monkey.png"),
                        width: String::from_str("150"),
                        height: String::from_str("150"),
                    },
                    String::new(),
                ),
                Some(low_level_object) => Object::from_low_level(
                    low_level_object,
                    low_level_project,
                ),
            };
            proof {
                assert(object@ =~= otarget[i as int]);
            }
            objects.push(object);
            i = i + 1;
        }
        proof {
            assert(objects@.map_values(|o: Object| o@) =~= otarget);
        }
        Scene { objects, name: low_level_scene.name.clone() }
    }
}

impl Project {
    /// The whole load path: a wire container to the owned tree.
    pub fn from_low_level(low_level_project: &LowLevelProject) -> (r: Self)
        ensures
            r@ =~= resolve_spec(low_level_project@),
    {
        let ghost starget = resolve_spec(low_level_project@).scenes;
        let mut scenes: Vec<Scene> = Vec::new();
        let mut i: usize = 0;
        while i < low_level_project.scenes.len()
            invariant
                i <= low_level_project.scenes.len(),
                starget == resolve_spec(low_level_project@).scenes,
                low_level_project@.scenes.len() == low_level_project.scenes.len(),
                scenes@.len() == i,
                forall|k: int| 0 <= k < i ==> (#[trigger] scenes@[k])@ == starget[k],
            decreases low_level_project.scenes.len() - i,
        {
            proof {
                assert(low_level_project@.scenes[i as int]
                    == low_level_project.scenes@[i as int]@);
            }
            let scene = Scene::from_low_level(&low_level_project.scenes[i], low_level_project);
            proof {
                assert(scene@ =~= starget[i as int]);
            }
            scenes.push(scene);
            i = i + 1;
        }
        proof {
            assert(scenes@.map_values(|s: Scene| s@) =~= starget);
        }
        Project { scenes }
    }
}

// ---------------------------------------------------------------------
// What resolution guarantees of its output.
// ---------------------------------------------------------------------

/// The default texts substituted for broken numeric fields are numeric.
pub proof fn lemma_default_nums()
    ensures
        is_num("0"@),
        is_num("1"@),
        is_num("150"@),
{
    reveal_strlit("0");
    reveal_strlit("1");
    reveal_strlit("150");
    assert(crate::text::all_digits("0"@.take(1)));
    assert("0"@.len() == 1);
    assert(crate::text::num_body("0"@));
    assert(crate::text::all_digits("1"@.take(1)));
    assert(crate::text::num_body("1"@));
    assert(crate::text::all_digits("150"@.take(3)));
    assert(crate::text::num_body("150"@));
}

/// Every tree the resolver produces is well formed: each numeric-as-string
/// attribute holds numeric text, kept from the wire or substituted.
pub proof fn lemma_resolve_wf(p: ProjW)
    ensures
        wf_tree(resolve_spec(p)),
{
    lemma_default_nums();
    let t = resolve_spec(p);
    assert forall|i: int| 0 <= i < t.scenes.len() implies wf_scene(#[trigger] t.scenes[i]) by {
        let s = rs_scene(p, p.scenes[i]);
        assert(t.scenes[i] == s);
        assert forall|j: int| 0 <= j < s.objects.len() implies wf_obj(#[trigger] s.objects[j]) by {
            assert(s.objects[j] == rs_object(p, p.scenes[i].objects[j]));
        }
    }
}

} // verus!
