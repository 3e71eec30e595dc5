//! The graph flattener: the save path.  Walks the owned tree top-down and
//! re-creates the flat wire container, minting a fresh identifier for every
//! record, appending records in the exact order their owning parent is
//! processed.  Container-level fields the tree does not retain are emitted
//! as fixed constants.
//!
//! Identifier minting is an injectable capability: an [`IdGen`] renders a
//! caller-chosen prefix plus a strictly increasing counter, so the minted
//! identifiers are provably pairwise distinct and tests can supply
//! deterministic prefixes.  The default generator draws its prefix from a
//! random UUID.

use vstd::prelude::*;

use crate::outside::{fresh_uuid, now_secs};
use crate::text::{dec, dec_u64};
use crate::tree::{Block, BlockT, BlockType, ObjT, Object, ProjT, Project, Rule, RuleT, Scene, SceneT};
use crate::wire::{
    AbilW, BlockW, LowLevelAbility, LowLevelBlock, LowLevelObject, LowLevelProject, LowLevelRule,
    LowLevelScene, LowLevelStageSize, ObjW, ProjW, RuleW, SceneW, StageW, NO_EVENT_TAG,
};

verus! {

broadcast use vstd::seq_lib::group_seq_properties;

// ---------------------------------------------------------------------
// Identifier minting.
// ---------------------------------------------------------------------

/// A minted identifier: the generator's prefix, a dash, and the counter
/// value in decimal.
pub open spec fn id_str(prefix: Seq<char>, n: nat) -> Seq<char> {
    prefix + "-"@ + dec(n)
}

/// For one prefix, distinct counters mint distinct identifiers.
pub proof fn lemma_id_str_injective(prefix: Seq<char>, a: nat, b: nat)
    requires
        id_str(prefix, a) == id_str(prefix, b),
    ensures
        a == b,
{
    let sa = id_str(prefix, a);
    let p = prefix.len() + "-"@.len();
    assert(dec(a) =~= sa.subrange(p as int, sa.len() as int));
    assert(dec(b) =~= sa.subrange(p as int, sa.len() as int));
    crate::text::lemma_dec_injective(a, b);
}

pub ghost struct IdGenV {
    pub prefix: Seq<char>,
    pub next: nat,
}

/// Mints identifiers: a fixed prefix joined with a strictly increasing
/// counter.
pub struct IdGen {
    pub prefix: String,
    pub next: u64,
}

impl View for IdGen {
    type V = IdGenV;

    open spec fn view(&self) -> IdGenV {
        IdGenV { prefix: self.prefix@, next: self.next as nat }
    }
}

impl IdGen {
    /// A generator whose prefix is a fresh random UUID.
    pub fn new() -> (r: Self)
        ensures
            r@.next == 0,
            r@.prefix.len() == 36,
    {
        IdGen { prefix: fresh_uuid(), next: 0 }
    }

    /// A generator over a caller-chosen prefix, for deterministic output.
    pub fn with_prefix(prefix: String) -> (r: Self)
        ensures
            r@.prefix == prefix@,
            r@.next == 0,
    {
        IdGen { prefix, next: 0 }
    }

    /// The next identifier: prefix, dash, counter.
    pub fn mint(&mut self) -> (r: String)
        requires
            old(self)@.next < u64::MAX as nat,
        ensures
            r@ == id_str(old(self)@.prefix, old(self)@.next),
            final(self)@.prefix == old(self)@.prefix,
            final(self)@.next == old(self)@.next + 1,
    {
        let mut s = self.prefix.clone();
        s.append("-");
        let d = dec_u64(self.next);
        s.append(d.as_str());
        self.next = self.next + 1;
        proof {
            assert(s@ =~= id_str(self.prefix@, (self.next - 1) as nat));
        }
        s
    }
}

// ---------------------------------------------------------------------
// The flattening, as a mathematical function of the tree: a state of
// already-appended collections plus the counter, threaded through every
// step in the order the executable path mints.
// ---------------------------------------------------------------------

#[verifier::ext_equal]
pub ghost struct FlatSt {
    pub scenes: Seq<SceneW>,
    pub objects: Seq<ObjW>,
    pub rules: Seq<RuleW>,
    pub abilities: Seq<AbilW>,
    pub c: nat,
}

pub open spec fn empty_st(c0: nat) -> FlatSt {
    FlatSt {
        scenes: Seq::empty(),
        objects: Seq::empty(),
        rules: Seq::empty(),
        abilities: Seq::empty(),
        c: c0,
    }
}

/// One tree block as it is written back: the tag round-trips, description
/// and class are fixed placeholders, parameters are emitted empty.
pub open spec fn block_to_wire(b: BlockT) -> BlockW {
    BlockW { tag: Option::Some(b.tag), description: "TODO: Description"@, block_class: "method"@ }
}

pub open spec fn wire_block_list(bs: Seq<BlockT>) -> Seq<BlockW> {
    bs.map_values(|b: BlockT| block_to_wire(b))
}

/// The trigger type written for a rule: its event's tag, or the fixed
/// no-trigger tag when the rule has no event.
pub open spec fn rule_out_tag(r: RuleT) -> int {
    match r.event {
        Option::None => NO_EVENT_TAG as int,
        Option::Some(b) => b.tag,
    }
}

/// Appends one ability holding `bs`; yields its fresh identifier.
pub open spec fn fl_ability(st: FlatSt, bs: Seq<BlockT>, pfx: Seq<char>, at: int) -> (FlatSt, Seq<
    char,
>) {
    let id = id_str(pfx, st.c);
    (
        FlatSt {
            abilities: st.abilities.push(
                AbilW { id, name: Option::None, created_at: at, blocks: wire_block_list(bs) },
            ),
            c: st.c + 1,
            ..st
        },
        id,
    )
}

/// Appends one rule record (body ability first); yields its identifier.
pub open spec fn fl_rule(st: FlatSt, r: RuleT, pfx: Seq<char>, at: int) -> (FlatSt, Seq<char>) {
    let s1 = fl_ability(st, r.body, pfx, at);
    let rid = id_str(pfx, s1.0.c);
    (
        FlatSt {
            rules: s1.0.rules.push(
                RuleW {
                    id: rid,
                    tag: Option::Some(rule_out_tag(r)),
                    object_id: Option::None,
                    ability_id: s1.1,
                },
            ),
            c: s1.0.c + 1,
            ..s1.0
        },
        rid,
    )
}

pub open spec fn fl_rules(st: FlatSt, rs: Seq<RuleT>, pfx: Seq<char>, at: int) -> (FlatSt, Seq<
    Seq<char>,
>)
    decreases rs.len(),
{
    if rs.len() == 0 {
        (st, Seq::empty())
    } else {
        let s1 = fl_rules(st, rs.drop_last(), pfx, at);
        let s2 = fl_rule(s1.0, rs.last(), pfx, at);
        (s2.0, s1.1.push(s2.1))
    }
}

/// Appends one object record (pre-game ability and rules first); yields
/// its identifier.
pub open spec fn fl_object(st: FlatSt, o: ObjT, pfx: Seq<char>, at: int) -> (FlatSt, Seq<char>) {
    let s1 = fl_ability(st, o.pre, pfx, at);
    let s2 = fl_rules(s1.0, o.rules, pfx, at);
    let oid = id_str(pfx, s2.0.c);
    (
        FlatSt {
            objects: s2.0.objects.push(
                ObjW {
                    id: oid,
                    tag: Option::Some(o.otype.tag),
                    filename: o.otype.filename,
                    width: o.otype.width,
                    height: o.otype.height,
                    name: o.name,
                    rules: s2.1,
                    x_position: o.x,
                    y_position: o.y,
                    resize_scale: o.scale,
                    rotation: o.rot,
                    text: Option::None,
                    ability_id: s1.1,
                },
            ),
            c: s2.0.c + 1,
            ..s2.0
        },
        oid,
    )
}

pub open spec fn fl_objects(st: FlatSt, os: Seq<ObjT>, pfx: Seq<char>, at: int) -> (FlatSt, Seq<
    Seq<char>,
>)
    decreases os.len(),
{
    if os.len() == 0 {
        (st, Seq::empty())
    } else {
        let s1 = fl_objects(st, os.drop_last(), pfx, at);
        let s2 = fl_object(s1.0, os.last(), pfx, at);
        (s2.0, s1.1.push(s2.1))
    }
}

/// Appends one scene record, after all of its objects.
pub open spec fn fl_scene(st: FlatSt, s: SceneT, pfx: Seq<char>, at: int) -> FlatSt {
    let s1 = fl_objects(st, s.objects, pfx, at);
    let sid = id_str(pfx, s1.0.c);
    FlatSt {
        scenes: s1.0.scenes.push(SceneW { name: s.name, id: sid, objects: s1.1 }),
        c: s1.0.c + 1,
        ..s1.0
    }
}

pub open spec fn fl_scenes(st: FlatSt, ss: Seq<SceneT>, pfx: Seq<char>, at: int) -> FlatSt
    decreases ss.len(),
{
    if ss.len() == 0 {
        st
    } else {
        fl_scene(fl_scenes(st, ss.drop_last(), pfx, at), ss.last(), pfx, at)
    }
}

/// The whole save path: the flattened collections under the fixed
/// container-level constants.
pub open spec fn flatten_spec(t: ProjT, pfx: Seq<char>, c0: nat, at: int) -> ProjW {
    let st = fl_scenes(empty_st(c0), t.scenes, pfx, at);
    ProjW {
        scenes: st.scenes,
        stage_size: StageW { width: 1024, height: 768 },
        player_version: "3.0.0"@,
        version: 34,
        abilities: st.abilities,
        font_size: 80,
        objects: st.objects,
        requires_beta_editor: false,
        rules: st.rules,
    }
}

// ---------------------------------------------------------------------
// How many identifiers a flattening mints.
// ---------------------------------------------------------------------

/// Identifiers minted for one object: its record, its pre-game ability,
/// and one ability plus one record per rule.
pub open spec fn obj_ids(o: ObjT) -> nat {
    2 + 2 * o.rules.len()
}

pub open spec fn objs_ids(os: Seq<ObjT>) -> nat
    decreases os.len(),
{
    if os.len() == 0 {
        0
    } else {
        objs_ids(os.drop_last()) + obj_ids(os.last())
    }
}

pub open spec fn scene_ids(s: SceneT) -> nat {
    1 + objs_ids(s.objects)
}

pub open spec fn scenes_ids(ss: Seq<SceneT>) -> nat
    decreases ss.len(),
{
    if ss.len() == 0 {
        0
    } else {
        scenes_ids(ss.drop_last()) + scene_ids(ss.last())
    }
}

/// Identifiers minted for a whole tree.
pub open spec fn id_count(t: ProjT) -> nat {
    scenes_ids(t.scenes)
}

pub proof fn lemma_fl_rules_c(st: FlatSt, rs: Seq<RuleT>, pfx: Seq<char>, at: int)
    ensures
        fl_rules(st, rs, pfx, at).0.c == st.c + 2 * rs.len(),
        fl_rules(st, rs, pfx, at).1.len() == rs.len(),
    decreases rs.len(),
{
    if rs.len() > 0 {
        lemma_fl_rules_c(st, rs.drop_last(), pfx, at);
    }
}

pub proof fn lemma_fl_objects_c(st: FlatSt, os: Seq<ObjT>, pfx: Seq<char>, at: int)
    ensures
        fl_objects(st, os, pfx, at).0.c == st.c + objs_ids(os),
        fl_objects(st, os, pfx, at).1.len() == os.len(),
    decreases os.len(),
{
    if os.len() > 0 {
        lemma_fl_objects_c(st, os.drop_last(), pfx, at);
        lemma_fl_rules_c(
            fl_ability(fl_objects(st, os.drop_last(), pfx, at).0, os.last().pre, pfx, at).0,
            os.last().rules,
            pfx,
            at,
        );
    }
}

pub proof fn lemma_fl_scenes_c(st: FlatSt, ss: Seq<SceneT>, pfx: Seq<char>, at: int)
    ensures
        fl_scenes(st, ss, pfx, at).c == st.c + scenes_ids(ss),
    decreases ss.len(),
{
    if ss.len() > 0 {
        lemma_fl_scenes_c(st, ss.drop_last(), pfx, at);
        lemma_fl_objects_c(fl_scenes(st, ss.drop_last(), pfx, at), ss.last().objects, pfx, at);
    }
}

// ---------------------------------------------------------------------
// Executable flattening.
// ---------------------------------------------------------------------

/// The state a wire container under construction corresponds to.
pub open spec fn st_of(p: ProjW, c: nat) -> FlatSt {
    FlatSt { scenes: p.scenes, objects: p.objects, rules: p.rules, abilities: p.abilities, c }
}

/// The container-level constants are untouched by appending records.
pub open spec fn same_container(a: ProjW, b: ProjW) -> bool {
    a.stage_size == b.stage_size && a.player_version == b.player_version && a.version == b.version
        && a.font_size == b.font_size && a.requires_beta_editor == b.requires_beta_editor
}

impl BlockType {
    /// The numeric tag written to the wire for this block type.
    pub fn to_low_level(&self) -> (r: i64)
        ensures
            r as int == self@,
    {
        match self {
            BlockType::ArbitraryID(id) => *id,
        }
    }
}

impl Block {
    /// This block as a wire block record.
    pub fn to_low_level_in(&self) -> (r: LowLevelBlock)
        ensures
            r@ == block_to_wire(self@),
    {
        let r = LowLevelBlock {
            hs_type: Some(self.hs_type.to_low_level()),
            description: String::from_str("TODO: Description"),
            block_class: String::from_str("method"),
        };
        proof {
            assert(r@ =~= block_to_wire(self@));
        }
        r
    }

    /// Flattens a block list into a fresh ability record appended to the
    /// container; returns the minted ability identifier.
    pub fn vec_to_low_level_ability_id_in(
        project: &mut LowLevelProject,
        gen: &mut IdGen,
        created_at: i64,
        blocks: &Vec<Block>,
    ) -> (r: String)
        requires
            old(gen)@.next + 1 <= u64::MAX as nat,
        ensures
            ({
                let s1 = fl_ability(
                    st_of(old(project)@, old(gen)@.next),
                    blocks@.map_values(|b: Block| b@),
                    old(gen)@.prefix,
                    created_at as int,
                );
                st_of(final(project)@, final(gen)@.next) == s1.0 && r@ == s1.1 && same_container(
                    final(project)@,
                    old(project)@,
                ) && final(gen)@.prefix == old(gen)@.prefix
            }),
    {
        let ghost bs = blocks@.map_values(|b: Block| b@);
        let id = gen.mint();
        let mut wire_blocks: Vec<LowLevelBlock> = Vec::new();
        let mut i: usize = 0;
        while i < blocks.len()
            invariant
                i <= blocks.len(),
                wire_blocks@.len() == i,
                forall|k: int| 0 <= k < i ==> (#[trigger] wire_blocks@[k])@ == block_to_wire(
                    blocks@[k]@,
                ),
            decreases blocks.len() - i,
        {
            wire_blocks.push(blocks[i].to_low_level_in());
            i = i + 1;
        }
        let ability = LowLevelAbility {
            ability_id: id.clone(),
            name: None,
            created_at,
            blocks: wire_blocks,
        };
        proof {
            assert(ability@.blocks =~= wire_block_list(bs));
        }
        project.abilities.push(ability);
        proof {
            assert(st_of(project@, gen@.next) =~= fl_ability(
                st_of(old(project)@, old(gen)@.next),
                bs,
                old(gen)@.prefix,
                created_at as int,
            ).0);
        }
        id
    }
}

impl Rule {
    /// Flattens this rule: its body ability first, then its own record;
    /// returns the minted rule identifier.
    pub fn to_low_level_id_in_project(
        &self,
        project: &mut LowLevelProject,
        gen: &mut IdGen,
        created_at: i64,
    ) -> (r: String)
        requires
            old(gen)@.next + 2 <= u64::MAX as nat,
        ensures
            ({
                let s1 = fl_rule(
                    st_of(old(project)@, old(gen)@.next),
                    self@,
                    old(gen)@.prefix,
                    created_at as int,
                );
                st_of(final(project)@, final(gen)@.next) == s1.0 && r@ == s1.1 && same_container(
                    final(project)@,
                    old(project)@,
                ) && final(gen)@.prefix == old(gen)@.prefix
            }),
    {
        let ability_id = Block::vec_to_low_level_ability_id_in(project, gen, created_at, &self.blocks);
        proof {
            assert(self.blocks@.map_values(|b: Block| b@) =~= self@.body);
        }
        let block_type_number: i64 = match &self.event {
            None => NO_EVENT_TAG,
            Some(block) => block.hs_type.to_low_level(),
        };
        let id = gen.mint();
        let rule = LowLevelRule {
            id: id.clone(),
            rule_block_type: Some(block_type_number),
            object_id: None,
            ability_id,
        };
        project.rules.push(rule);
        proof {
            assert(st_of(project@, gen@.next) =~= fl_rule(
                st_of(old(project)@, old(gen)@.next),
                self@,
                old(gen)@.prefix,
                created_at as int,
            ).0);
        }
        id
    }
}

impl Object {
    /// Flattens this object: pre-game ability, then each rule, then its
    /// own record; returns the minted object identifier.
    pub fn to_low_level_id_in(
        &self,
        project: &mut LowLevelProject,
        gen: &mut IdGen,
        created_at: i64,
    ) -> (r: String)
        requires
            old(gen)@.next + obj_ids(self@) <= u64::MAX as nat,
        ensures
            ({
                let s1 = fl_object(
                    st_of(old(project)@, old(gen)@.next),
                    self@,
                    old(gen)@.prefix,
                    created_at as int,
                );
                st_of(final(project)@, final(gen)@.next) == s1.0 && r@ == s1.1 && same_container(
                    final(project)@,
                    old(project)@,
                ) && final(gen)@.prefix == old(gen)@.prefix
            }),
    {
        let ghost pfx = gen@.prefix;
        let ghost at = created_at as int;
        let ghost rs = self@.rules;
        let before_game_starts_ability_id = Block::vec_to_low_level_ability_id_in(
            project,
            gen,
            created_at,
            &self.before_game_starts_blocks,
        );
        proof {
            assert(self.before_game_starts_blocks@.map_values(|b: Block| b@) =~= self@.pre);
        }
        let ghost st1 = st_of(project@, gen@.next);
        let mut rule_ids: Vec<String> = Vec::new();
        let mut i: usize = 0;
        while i < self.rules.len()
            invariant
                i <= self.rules.len(),
                rs == self@.rules,
                rs.len() == self.rules.len(),
                at == created_at as int,
                st1.c + 2 * rs.len() + 1 <= u64::MAX as nat,
                st_of(project@, gen@.next) == fl_rules(st1, rs.take(i as int), pfx, at).0,
                rule_ids@.len() == i,
                forall|k: int| 0 <= k < i ==> (#[trigger] rule_ids@[k])@ == fl_rules(
                    st1,
                    rs.take(i as int),
                    pfx,
                    at,
                ).1[k],
                gen@.prefix == pfx,
                same_container(project@, old(project)@),
            decreases self.rules.len() - i,
        {
            proof {
                lemma_fl_rules_c(st1, rs.take(i as int), pfx, at);
                assert(self@.rules[i as int] == self.rules@[i as int]@);
            }
            let rule_id = self.rules[i].to_low_level_id_in_project(project, gen, created_at);
            proof {
                assert(rs.take(i as int + 1).drop_last() =~= rs.take(i as int));
                assert(rs.take(i as int + 1).last() == rs[i as int]);
                let prev = fl_rules(st1, rs.take(i as int), pfx, at);
                let step = fl_rule(prev.0, rs[i as int], pfx, at);
                assert(fl_rules(st1, rs.take(i as int + 1), pfx, at).0 == step.0);
                assert(fl_rules(st1, rs.take(i as int + 1), pfx, at).1 =~= prev.1.push(step.1));
            }
            rule_ids.push(rule_id);
            i = i + 1;
        }
        proof {
            assert(rs.take(rs.len() as int) =~= rs);
            lemma_fl_rules_c(st1, rs, pfx, at);
        }
        let id = gen.mint();
        let object = LowLevelObject {
            object_id: id.clone(),
            hs_type: Some(self.hs_type.hs_type),
            filename: self.hs_type.filename.clone(),
            width: self.hs_type.width.clone(),
            height: self.hs_type.height.clone(),
            name: self.name.clone(),
            rules: rule_ids,
            x_position: self.x_position.clone(),
            y_position: self.y_position.clone(),
            resize_scale: self.resize_scale.clone(),
            rotation: self.rotation.clone(),
            text: None,
            ability_id: before_game_starts_ability_id,
        };
        proof {
            assert(object@.rules =~= fl_rules(st1, rs, pfx, at).1);
        }
        project.objects.push(object);
        proof {
            assert(st_of(project@, gen@.next) =~= fl_object(
                st_of(old(project)@, old(gen)@.next),
                self@,
                pfx,
                at,
            ).0);
        }
        id
    }
}

impl Scene {
    /// Flattens this scene: all of its objects first, then the scene
    /// record referencing their fresh identifiers.
    pub fn to_low_level_in(
        &self,
        project: &mut LowLevelProject,
        gen: &mut IdGen,
        created_at: i64,
    )
        requires
            old(gen)@.next + scene_ids(self@) <= u64::MAX as nat,
        ensures
            st_of(final(project)@, final(gen)@.next) == fl_scene(
                st_of(old(project)@, old(gen)@.next),
                self@,
                old(gen)@.prefix,
                created_at as int,
            ),
            same_container(final(project)@, old(project)@),
            final(gen)@.prefix == old(gen)@.prefix,
    {
        let ghost pfx = gen@.prefix;
        let ghost at = created_at as int;
        let ghost os = self@.objects;
        let ghost st0 = st_of(project@, gen@.next);
        let mut object_ids: Vec<String> = Vec::new();
        let mut i: usize = 0;
        while i < self.objects.len()
            invariant
                i <= self.objects.len(),
                os == self@.objects,
                os.len() == self.objects.len(),
                at == created_at as int,
                st0.c + objs_ids(os) + 1 <= u64::MAX as nat,
                st_of(project@, gen@.next) == fl_objects(st0, os.take(i as int), pfx, at).0,
                object_ids@.len() == i,
                forall|k: int| 0 <= k < i ==> (#[trigger] object_ids@[k])@ == fl_objects(
                    st0,
                    os.take(i as int),
                    pfx,
                    at,
                ).1[k],
                gen@.prefix == pfx,
                same_container(project@, old(project)@),
            decreases self.objects.len() - i,
        {
            proof {
                lemma_fl_objects_c(st0, os.take(i as int), pfx, at);
                lemma_objs_ids_mono(os, i as int);
                assert(self@.objects[i as int] == self.objects@[i as int]@);
            }
            let object_id = self.objects[i].to_low_level_id_in(project, gen, created_at);
            proof {
                assert(os.take(i as int + 1).drop_last() =~= os.take(i as int));
                assert(os.take(i as int + 1).last() == os[i as int]);
                let prev = fl_objects(st0, os.take(i as int), pfx, at);
                let step = fl_object(prev.0, os[i as int], pfx, at);
                assert(fl_objects(st0, os.take(i as int + 1), pfx, at).0 == step.0);
                assert(fl_objects(st0, os.take(i as int + 1), pfx, at).1 =~= prev.1.push(step.1));
            }
            object_ids.push(object_id);
            i = i + 1;
        }
        proof {
            assert(os.take(os.len() as int) =~= os);
            lemma_fl_objects_c(st0, os, pfx, at);
        }
        let id = gen.mint();
        let scene = LowLevelScene { name: self.name.clone(), id, objects: object_ids };
        proof {
            assert(scene@.objects =~= fl_objects(st0, os, pfx, at).1);
        }
        project.scenes.push(scene);
        proof {
            assert(st_of(project@, gen@.next) =~= fl_scene(st0, self@, pfx, at));
        }
    }
}

/// Minting for a prefix of the objects never exceeds minting for all of
/// them.
proof fn lemma_objs_ids_mono(os: Seq<ObjT>, i: int)
    requires
        0 <= i <= os.len(),
    ensures
        objs_ids(os.take(i)) + (if i < os.len() {
            obj_ids(os[i])
        } else {
            0
        }) <= objs_ids(os),
    decreases os.len() - i,
{
    if i < os.len() {
        lemma_objs_ids_mono(os, i + 1);
        assert(os.take(i + 1).drop_last() =~= os.take(i));
        assert(os.take(i + 1).last() == os[i]);
    } else {
        assert(os.take(i) =~= os);
    }
}

/// Same, one level up, for the scenes of a project.
proof fn lemma_scenes_ids_mono(ss: Seq<SceneT>, i: int)
    requires
        0 <= i <= ss.len(),
    ensures
        scenes_ids(ss.take(i)) + (if i < ss.len() {
            scene_ids(ss[i])
        } else {
            0
        }) <= scenes_ids(ss),
    decreases ss.len() - i,
{
    if i < ss.len() {
        lemma_scenes_ids_mono(ss, i + 1);
        assert(ss.take(i + 1).drop_last() =~= ss.take(i));
        assert(ss.take(i + 1).last() == ss[i]);
    } else {
        assert(ss.take(i) =~= ss);
    }
}

impl Project {
    /// How many identifiers saving this tree would mint, when that count
    /// fits the counter.
    pub fn count_ids(&self) -> (r: Option<u64>)
        ensures
            match r {
                Option::Some(n) => n as nat == id_count(self@),
                Option::None => id_count(self@) > u64::MAX as nat,
            },
    {
        let ghost ss = self@.scenes;
        let mut total: u64 = 0;
        let mut i: usize = 0;
        while i < self.scenes.len()
            invariant
                i <= self.scenes.len(),
                ss == self@.scenes,
                ss.len() == self.scenes.len(),
                total as nat == scenes_ids(ss.take(i as int)),
            decreases self.scenes.len() - i,
        {
            proof {
                assert(self@.scenes[i as int] == self.scenes@[i as int]@);
            }
            let scene = &self.scenes[i];
            let ghost oss = ss[i as int].objects;
            let mut scene_total: u64 = 1;
            let mut j: usize = 0;
            while j < scene.objects.len()
                invariant
                    j <= scene.objects.len(),
                    oss == ss[i as int].objects,
                    ss == self@.scenes,
                    ss.len() == self.scenes.len(),
                    i < ss.len(),
                    scene == &self.scenes[i as int],
                    scene@ == ss[i as int],
                    oss.len() == scene.objects.len(),
                    scene_total as nat == 1 + objs_ids(oss.take(j as int)),
                decreases scene.objects.len() - j,
            {
                proof {
                    assert(ss[i as int].objects[j as int] == scene.objects@[j as int]@);
                    assert(oss.take(j as int + 1).drop_last() =~= oss.take(j as int));
                    assert(oss.take(j as int + 1).last() == oss[j as int]);
                }
                let nrules = scene.objects[j].rules.len();
                let add: u64 = match 2u64.checked_mul(nrules as u64) {
                    None => {
                        proof {
                            lemma_objs_ids_mono(oss, j as int);
                            lemma_scenes_ids_mono(ss, i as int);
                        }
                        return None;
                    },
                    Some(m) => match m.checked_add(2) {
                        None => {
                            proof {
                                lemma_objs_ids_mono(oss, j as int);
                                lemma_scenes_ids_mono(ss, i as int);
                            }
                            return None;
                        },
                        Some(a) => a,
                    },
                };
                proof {
                    assert(add as nat == obj_ids(oss[j as int]));
                }
                scene_total = match scene_total.checked_add(add) {
                    None => {
                        proof {
                            lemma_objs_ids_mono(oss, j as int);
                            lemma_scenes_ids_mono(ss, i as int);
                        }
                        return None;
                    },
                    Some(t) => t,
                };
                j = j + 1;
            }
            proof {
                assert(oss.take(scene.objects.len() as int) =~= oss);
                assert(ss.take(i as int + 1).drop_last() =~= ss.take(i as int));
                assert(ss.take(i as int + 1).last() == ss[i as int]);
            }
            total = match total.checked_add(scene_total) {
                None => {
                    proof {
                        lemma_scenes_ids_mono(ss, i as int);
                    }
                    return None;
                },
                Some(t) => t,
            };
            i = i + 1;
        }
        proof {
            assert(ss.take(self.scenes.len() as int) =~= ss);
        }
        Some(total)
    }

    /// The save path under a caller-supplied generator and timestamp:
    /// deterministic, and exactly the flattening function of this tree.
    pub fn to_low_level_with(&self, gen: &mut IdGen, created_at: i64) -> (r: LowLevelProject)
        requires
            old(gen)@.next + id_count(self@) <= u64::MAX as nat,
        ensures
            r@ == flatten_spec(self@, old(gen)@.prefix, old(gen)@.next, created_at as int),
            final(gen)@.prefix == old(gen)@.prefix,
    {
        let ghost pfx = gen@.prefix;
        let ghost at = created_at as int;
        let ghost ss = self@.scenes;
        let ghost c0 = gen@.next;
        let mut result = LowLevelProject::new(
            LowLevelStageSize { width: 1024, height: 768 },
            String::from_str("3.0.0"),
            34,
            80,
            false,
        );
        proof {
            assert(st_of(result@, c0) =~= fl_scenes(empty_st(c0), ss.take(0), pfx, at));
        }
        let mut i: usize = 0;
        while i < self.scenes.len()
            invariant
                i <= self.scenes.len(),
                ss == self@.scenes,
                ss.len() == self.scenes.len(),
                at == created_at as int,
                c0 + scenes_ids(ss) <= u64::MAX as nat,
                st_of(result@, gen@.next) == fl_scenes(empty_st(c0), ss.take(i as int), pfx, at),
                gen@.prefix == pfx,
                result@.stage_size == (StageW { width: 1024, height: 768 }),
                result@.player_version == "3.0.0"@,
                result@.version == 34,
                result@.font_size == 80,
                result@.requires_beta_editor == false,
            decreases self.scenes.len() - i,
        {
            proof {
                lemma_fl_scenes_c(empty_st(c0), ss.take(i as int), pfx, at);
                lemma_scenes_ids_mono(ss, i as int);
                assert(self@.scenes[i as int] == self.scenes@[i as int]@);
            }
            self.scenes[i].to_low_level_in(&mut result, gen, created_at);
            proof {
                assert(ss.take(i as int + 1).drop_last() =~= ss.take(i as int));
                assert(ss.take(i as int + 1).last() == ss[i as int]);
            }
            i = i + 1;
        }
        proof {
            assert(ss.take(self.scenes.len() as int) =~= ss);
            assert(result@ =~= flatten_spec(self@, pfx, c0, at));
        }
        result
    }

    /// The save path as callers outside tests want it: a random prefix
    /// and the clock's timestamp.  Yields `None` exactly when the tree is
    /// so large that minting would exhaust the counter.
    pub fn to_low_level(&self) -> (r: Option<LowLevelProject>)
        ensures
            match r {
                Option::Some(p) => exists|pfx: Seq<char>, at: int|
                    0 <= at && p@ == flatten_spec(self@, pfx, 0, at),
                Option::None => id_count(self@) > u64::MAX as nat,
            },
    {
        match self.count_ids() {
            None => None,
            Some(_) => {
                let mut gen = IdGen::new();
                let created_at = now_secs();
                let result = self.to_low_level_with(&mut gen, created_at);
                proof {
                    let pfx = gen@.prefix;
                    assert(0 <= created_at as int && result@ == flatten_spec(
                        self@,
                        pfx,
                        0,
                        created_at as int,
                    ));
                }
                Some(result)
            },
        }
    }
}

} // verus!
