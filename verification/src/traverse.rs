//! The traversal: one deterministic, depth-first pass over every block in
//! the tree — for each scene in order, for each object in order, first the
//! object's pre-game blocks, then for each rule its trigger-event block (if
//! present) followed by its body blocks.
//!
//! The pass is exposed as a read of the full tag sequence
//! ([`Project::block_tags`]) and as a whole-tree rewrite
//! ([`Project::replace_block_tags`]), the reference use of the traversal:
//! remapping every block of one type tag to another in a single pass.

use vstd::prelude::*;

use crate::tree::{
    Block, BlockT, BlockType, ObjT, Object, ObjectType, ProjT, Project, Rule, RuleT, Scene, SceneT,
};
use vstd::pervasive::VecAdditionalExecFns;

verus! {

broadcast use vstd::seq_lib::group_seq_properties;

// ---------------------------------------------------------------------
// The tag sequence the traversal visits, in visiting order.
// ---------------------------------------------------------------------

pub open spec fn tags_of(bs: Seq<BlockT>) -> Seq<int> {
    bs.map_values(|b: BlockT| b.tag)
}

/// One rule's contribution: its event's tag when present, then its body.
pub open spec fn rule_tags(r: RuleT) -> Seq<int> {
    (match r.event {
        Option::None => Seq::empty(),
        Option::Some(b) => seq![b.tag],
    }) + tags_of(r.body)
}

pub open spec fn rules_tags(rs: Seq<RuleT>) -> Seq<int>
    decreases rs.len(),
{
    if rs.len() == 0 {
        Seq::empty()
    } else {
        rules_tags(rs.drop_last()) + rule_tags(rs.last())
    }
}

/// One object's contribution: pre-game blocks first, then its rules.
pub open spec fn obj_tags(o: ObjT) -> Seq<int> {
    tags_of(o.pre) + rules_tags(o.rules)
}

pub open spec fn objs_tags(os: Seq<ObjT>) -> Seq<int>
    decreases os.len(),
{
    if os.len() == 0 {
        Seq::empty()
    } else {
        objs_tags(os.drop_last()) + obj_tags(os.last())
    }
}

pub open spec fn scene_tags(s: SceneT) -> Seq<int> {
    objs_tags(s.objects)
}

pub open spec fn scenes_tags(ss: Seq<SceneT>) -> Seq<int>
    decreases ss.len(),
{
    if ss.len() == 0 {
        Seq::empty()
    } else {
        scenes_tags(ss.drop_last()) + scene_tags(ss.last())
    }
}

/// Every block tag in the tree, in traversal order.
pub open spec fn tag_seq(t: ProjT) -> Seq<int> {
    scenes_tags(t.scenes)
}

// ---------------------------------------------------------------------
// Counting the visited blocks.
// ---------------------------------------------------------------------

pub open spec fn event_n(r: RuleT) -> nat {
    if r.event is Some {
        1
    } else {
        0
    }
}

pub open spec fn rules_events(rs: Seq<RuleT>) -> nat
    decreases rs.len(),
{
    if rs.len() == 0 {
        0
    } else {
        rules_events(rs.drop_last()) + event_n(rs.last())
    }
}

pub open spec fn rules_bodies(rs: Seq<RuleT>) -> nat
    decreases rs.len(),
{
    if rs.len() == 0 {
        0
    } else {
        rules_bodies(rs.drop_last()) + rs.last().body.len()
    }
}

pub open spec fn objs_pre(os: Seq<ObjT>) -> nat
    decreases os.len(),
{
    if os.len() == 0 {
        0
    } else {
        objs_pre(os.drop_last()) + os.last().pre.len()
    }
}

pub open spec fn objs_events(os: Seq<ObjT>) -> nat
    decreases os.len(),
{
    if os.len() == 0 {
        0
    } else {
        objs_events(os.drop_last()) + rules_events(os.last().rules)
    }
}

pub open spec fn objs_bodies(os: Seq<ObjT>) -> nat
    decreases os.len(),
{
    if os.len() == 0 {
        0
    } else {
        objs_bodies(os.drop_last()) + rules_bodies(os.last().rules)
    }
}

/// Pre-game blocks across all objects of the tree.
pub open spec fn pre_count(t: ProjT) -> nat
    decreases t.scenes.len(),
{
    if t.scenes.len() == 0 {
        0
    } else {
        pre_count(ProjT { scenes: t.scenes.drop_last() }) + objs_pre(t.scenes.last().objects)
    }
}

/// Rule trigger events across the tree.
pub open spec fn event_count(t: ProjT) -> nat
    decreases t.scenes.len(),
{
    if t.scenes.len() == 0 {
        0
    } else {
        event_count(ProjT { scenes: t.scenes.drop_last() }) + objs_events(t.scenes.last().objects)
    }
}

/// Rule body blocks across the tree.
pub open spec fn body_count(t: ProjT) -> nat
    decreases t.scenes.len(),
{
    if t.scenes.len() == 0 {
        0
    } else {
        body_count(ProjT { scenes: t.scenes.drop_last() }) + objs_bodies(t.scenes.last().objects)
    }
}

proof fn lemma_rules_tags_len(rs: Seq<RuleT>)
    ensures
        rules_tags(rs).len() == rules_events(rs) + rules_bodies(rs),
    decreases rs.len(),
{
    if rs.len() > 0 {
        lemma_rules_tags_len(rs.drop_last());
    }
}

proof fn lemma_objs_tags_len(os: Seq<ObjT>)
    ensures
        objs_tags(os).len() == objs_pre(os) + objs_events(os) + objs_bodies(os),
    decreases os.len(),
{
    if os.len() > 0 {
        lemma_objs_tags_len(os.drop_last());
        lemma_rules_tags_len(os.last().rules);
    }
}

/// The traversal is complete: for a tree with `pre_count` pre-game blocks
/// across all objects, `event_count` rule trigger events and `body_count`
/// rule body blocks, it visits exactly their sum — rules without an event
/// contribute no event visit.
pub proof fn lemma_traversal_count(t: ProjT)
    ensures
        tag_seq(t).len() == pre_count(t) + event_count(t) + body_count(t),
    decreases t.scenes.len(),
{
    if t.scenes.len() > 0 {
        lemma_traversal_count(ProjT { scenes: t.scenes.drop_last() });
        lemma_objs_tags_len(t.scenes.last().objects);
    }
}

// ---------------------------------------------------------------------
// Reading the tag sequence.
// ---------------------------------------------------------------------

impl Rule {
    /// This rule's visited tags, in order.
    pub fn block_tags(&self) -> (r: Vec<i64>)
        ensures
            r@.map_values(|x: i64| x as int) =~= rule_tags(self@),
    {
        let mut r: Vec<i64> = Vec::new();
        match &self.event {
            None => {},
            Some(b) => {
                r.push(b.hs_type.to_low_level());
            },
        }
        let ghost en = event_n(self@);
        let mut i: usize = 0;
        while i < self.blocks.len()
            invariant
                i <= self.blocks.len(),
                en == event_n(self@),
                self@.body.len() == self.blocks.len(),
                r@.len() == en + i,
                forall|k: int| 0 <= k < r@.len() ==> r@[k] as int == rule_tags(self@)[k],
            decreases self.blocks.len() - i,
        {
            let b = &self.blocks[i];
            proof {
                assert(self@.body[i as int] == self.blocks@[i as int]@);
                assert(rule_tags(self@)[en + i] == tags_of(self@.body)[i as int]);
            }
            r.push(b.hs_type.to_low_level());
            i = i + 1;
        }
        proof {
            assert(rule_tags(self@).len() == en + self@.body.len());
        }
        r
    }
}

impl Object {
    /// This object's visited tags: pre-game blocks, then each rule.
    pub fn block_tags(&self) -> (r: Vec<i64>)
        ensures
            r@.map_values(|x: i64| x as int) =~= obj_tags(self@),
    {
        let mut r: Vec<i64> = Vec::new();
        let mut i: usize = 0;
        while i < self.before_game_starts_blocks.len()
            invariant
                i <= self.before_game_starts_blocks.len(),
                self@.pre.len() == self.before_game_starts_blocks.len(),
                r@.len() == i,
                forall|k: int| 0 <= k < i ==> r@[k] as int == tags_of(self@.pre)[k],
            decreases self.before_game_starts_blocks.len() - i,
        {
            proof {
                assert(self@.pre[i as int] == self.before_game_starts_blocks@[i as int]@);
            }
            r.push(self.before_game_starts_blocks[i].hs_type.to_low_level());
            i = i + 1;
        }
        let ghost rs = self@.rules;
        let mut j: usize = 0;
        while j < self.rules.len()
            invariant
                j <= self.rules.len(),
                rs == self@.rules,
                rs.len() == self.rules.len(),
                self@.pre.len() == self.before_game_starts_blocks.len(),
                r@.map_values(|x: i64| x as int) =~= tags_of(self@.pre) + rules_tags(
                    rs.take(j as int),
                ),
            decreases self.rules.len() - j,
        {
            proof {
                assert(self@.rules[j as int] == self.rules@[j as int]@);
            }
            let mut rt = self.rules[j].block_tags();
            let ghost rprev = r@;
            let ghost rtv = rt@;
            r.append(&mut rt);
            proof {
                assert(r@.map_values(|x: i64| x as int) =~= rprev.map_values(|x: i64| x as int)
                    + rtv.map_values(|x: i64| x as int));
                assert(rs.take(j as int + 1).drop_last() =~= rs.take(j as int));
                assert(rs.take(j as int + 1).last() == rs[j as int]);
                assert(tags_of(self@.pre) + rules_tags(rs.take(j as int + 1)) =~= (tags_of(
                    self@.pre,
                ) + rules_tags(rs.take(j as int))) + rule_tags(rs[j as int]));
            }
            j = j + 1;
        }
        proof {
            assert(rs.take(rs.len() as int) =~= rs);
        }
        r
    }
}

impl Scene {
    /// This scene's visited tags: each object in listed order.
    pub fn block_tags(&self) -> (r: Vec<i64>)
        ensures
            r@.map_values(|x: i64| x as int) =~= scene_tags(self@),
    {
        let ghost os = self@.objects;
        let mut r: Vec<i64> = Vec::new();
        let mut i: usize = 0;
        while i < self.objects.len()
            invariant
                i <= self.objects.len(),
                os == self@.objects,
                os.len() == self.objects.len(),
                r@.map_values(|x: i64| x as int) =~= objs_tags(os.take(i as int)),
            decreases self.objects.len() - i,
        {
            proof {
                assert(self@.objects[i as int] == self.objects@[i as int]@);
            }
            let mut ot = self.objects[i].block_tags();
            let ghost rprev = r@;
            let ghost otv = ot@;
            r.append(&mut ot);
            proof {
                assert(r@.map_values(|x: i64| x as int) =~= rprev.map_values(|x: i64| x as int)
                    + otv.map_values(|x: i64| x as int));
                assert(os.take(i as int + 1).drop_last() =~= os.take(i as int));
                assert(os.take(i as int + 1).last() == os[i as int]);
            }
            i = i + 1;
        }
        proof {
            assert(os.take(os.len() as int) =~= os);
        }
        r
    }
}

impl Project {
    /// Every block tag of the tree, in traversal order.
    pub fn block_tags(&self) -> (r: Vec<i64>)
        ensures
            r@.map_values(|x: i64| x as int) =~= tag_seq(self@),
    {
        let ghost ss = self@.scenes;
        let mut r: Vec<i64> = Vec::new();
        let mut i: usize = 0;
        while i < self.scenes.len()
            invariant
                i <= self.scenes.len(),
                ss == self@.scenes,
                ss.len() == self.scenes.len(),
                r@.map_values(|x: i64| x as int) =~= scenes_tags(ss.take(i as int)),
            decreases self.scenes.len() - i,
        {
            proof {
                assert(self@.scenes[i as int] == self.scenes@[i as int]@);
            }
            let mut st = self.scenes[i].block_tags();
            let ghost rprev = r@;
            let ghost stv = st@;
            r.append(&mut st);
            proof {
                assert(r@.map_values(|x: i64| x as int) =~= rprev.map_values(|x: i64| x as int)
                    + stv.map_values(|x: i64| x as int));
                assert(ss.take(i as int + 1).drop_last() =~= ss.take(i as int));
                assert(ss.take(i as int + 1).last() == ss[i as int]);
            }
            i = i + 1;
        }
        proof {
            assert(ss.take(ss.len() as int) =~= ss);
        }
        r
    }
}

// ---------------------------------------------------------------------
// The whole-tree rewrite: every block of one tag to another.
// ---------------------------------------------------------------------

pub open spec fn retag_block(b: BlockT, from: int, to: int) -> BlockT {
    if b.tag == from {
        BlockT { tag: to }
    } else {
        b
    }
}

pub open spec fn retag_blocks(bs: Seq<BlockT>, from: int, to: int) -> Seq<BlockT> {
    bs.map_values(|b: BlockT| retag_block(b, from, to))
}

pub open spec fn retag_rule(r: RuleT, from: int, to: int) -> RuleT {
    RuleT {
        event: match r.event {
            Option::None => Option::None,
            Option::Some(b) => Option::Some(retag_block(b, from, to)),
        },
        body: retag_blocks(r.body, from, to),
    }
}

pub open spec fn retag_obj(o: ObjT, from: int, to: int) -> ObjT {
    ObjT {
        pre: retag_blocks(o.pre, from, to),
        rules: o.rules.map_values(|r: RuleT| retag_rule(r, from, to)),
        ..o
    }
}

pub open spec fn retag_scene(s: SceneT, from: int, to: int) -> SceneT {
    SceneT { name: s.name, objects: s.objects.map_values(|o: ObjT| retag_obj(o, from, to)) }
}

/// The rewrite, as a mathematical function: every block whose tag is
/// `from` now carries `to`; everything else is untouched.
pub open spec fn retag_spec(t: ProjT, from: int, to: int) -> ProjT {
    ProjT { scenes: t.scenes.map_values(|s: SceneT| retag_scene(s, from, to)) }
}

pub open spec fn retag_tag(x: int, from: int, to: int) -> int {
    if x == from {
        to
    } else {
        x
    }
}

proof fn lemma_rule_tags_retag(r: RuleT, from: int, to: int)
    ensures
        rule_tags(retag_rule(r, from, to)) =~= rule_tags(r).map_values(
            |x: int| retag_tag(x, from, to),
        ),
{
}

proof fn lemma_rules_tags_retag(rs: Seq<RuleT>, from: int, to: int)
    ensures
        rules_tags(rs.map_values(|r: RuleT| retag_rule(r, from, to))) =~= rules_tags(
            rs,
        ).map_values(|x: int| retag_tag(x, from, to)),
    decreases rs.len(),
{
    let rr = rs.map_values(|r: RuleT| retag_rule(r, from, to));
    if rs.len() > 0 {
        lemma_rules_tags_retag(rs.drop_last(), from, to);
        lemma_rule_tags_retag(rs.last(), from, to);
        assert(rr.drop_last() =~= rs.drop_last().map_values(|r: RuleT| retag_rule(r, from, to)));
        assert(rr.last() == retag_rule(rs.last(), from, to));
        assert(rules_tags(rr) == rules_tags(rr.drop_last()) + rule_tags(rr.last()));
    }
}

proof fn lemma_obj_tags_retag(o: ObjT, from: int, to: int)
    ensures
        obj_tags(retag_obj(o, from, to)) =~= obj_tags(o).map_values(
            |x: int| retag_tag(x, from, to),
        ),
{
    lemma_rules_tags_retag(o.rules, from, to);
}

proof fn lemma_objs_tags_retag(os: Seq<ObjT>, from: int, to: int)
    ensures
        objs_tags(os.map_values(|o: ObjT| retag_obj(o, from, to))) =~= objs_tags(os).map_values(
            |x: int| retag_tag(x, from, to),
        ),
    decreases os.len(),
{
    let ro = os.map_values(|o: ObjT| retag_obj(o, from, to));
    if os.len() > 0 {
        lemma_objs_tags_retag(os.drop_last(), from, to);
        lemma_obj_tags_retag(os.last(), from, to);
        assert(ro.drop_last() =~= os.drop_last().map_values(|o: ObjT| retag_obj(o, from, to)));
        assert(ro.last() == retag_obj(os.last(), from, to));
        assert(objs_tags(ro) == objs_tags(ro.drop_last()) + obj_tags(ro.last()));
    }
}

proof fn lemma_scenes_tags_retag(ss: Seq<SceneT>, from: int, to: int)
    ensures
        scenes_tags(ss.map_values(|s: SceneT| retag_scene(s, from, to))) =~= scenes_tags(
            ss,
        ).map_values(|x: int| retag_tag(x, from, to)),
    decreases ss.len(),
{
    let rs = ss.map_values(|s: SceneT| retag_scene(s, from, to));
    if ss.len() > 0 {
        lemma_scenes_tags_retag(ss.drop_last(), from, to);
        lemma_objs_tags_retag(ss.last().objects, from, to);
        assert(rs.drop_last() =~= ss.drop_last().map_values(|s: SceneT| retag_scene(s, from, to)));
        assert(rs.last() == retag_scene(ss.last(), from, to));
        assert(scenes_tags(rs) == scenes_tags(rs.drop_last()) + scene_tags(rs.last()));
        assert(scene_tags(rs.last()) =~= scene_tags(ss.last()).map_values(
            |x: int| retag_tag(x, from, to),
        ));
    }
}

/// The rewrite seen through the traversal: the rewritten tree's tag
/// sequence is the original tag sequence with every occurrence of `from`
/// replaced by `to`, in unchanged order.
pub proof fn lemma_rewrite_tags(t: ProjT, from: int, to: int)
    ensures
        tag_seq(retag_spec(t, from, to)) =~= tag_seq(t).map_values(
            |x: int| retag_tag(x, from, to),
        ),
{
    lemma_scenes_tags_retag(t.scenes, from, to);
}

/// Rewrites each block of `blocks` whose tag is `from` to carry `to`.
fn retag_block_vec(blocks: &mut Vec<Block>, from: i64, to: i64)
    ensures
        final(blocks)@.map_values(|b: Block| b@) =~= retag_blocks(
            old(blocks)@.map_values(|b: Block| b@),
            from as int,
            to as int,
        ),
{
    let ghost orig = blocks@;
    let mut i: usize = 0;
    while i < blocks.len()
        invariant
            i <= blocks.len(),
            blocks@.len() == orig.len(),
            forall|k: int| 0 <= k < i ==> (#[trigger] blocks@[k])@ == retag_block(
                orig[k]@,
                from as int,
                to as int,
            ),
            forall|k: int| i <= k < orig.len() ==> blocks@[k] == orig[k],
        decreases blocks.len() - i,
    {
        let tag = blocks[i].hs_type.to_low_level();
        if tag == from {
            blocks.set(i, Block { hs_type: BlockType::ArbitraryID(to) });
        }
        i = i + 1;
    }
}

impl Rule {
    /// Rewrites this rule's event block (when present) and body blocks.
    pub fn replace_block_tags(&mut self, from: i64, to: i64)
        ensures
            final(self)@ =~= retag_rule(old(self)@, from as int, to as int),
    {
        match &self.event {
            None => {},
            Some(b) => {
                let tag = b.hs_type.to_low_level();
                if tag == from {
                    self.event = Some(Block { hs_type: BlockType::ArbitraryID(to) });
                }
            },
        }
        retag_block_vec(&mut self.blocks, from, to);
    }
}

impl Object {
    /// Rewrites this object's pre-game blocks and every rule.
    pub fn replace_block_tags(&mut self, from: i64, to: i64)
        ensures
            final(self)@ =~= retag_obj(old(self)@, from as int, to as int),
    {
        retag_block_vec(&mut self.before_game_starts_blocks, from, to);
        let ghost orig = self.rules@;
        let mut j: usize = 0;
        while j < self.rules.len()
            invariant
                j <= self.rules.len(),
                self.rules@.len() == orig.len(),
                self.before_game_starts_blocks@.map_values(|b: Block| b@) =~= retag_blocks(
                    old(self)@.pre,
                    from as int,
                    to as int,
                ),
                self.hs_type == old(self).hs_type,
                self.x_position == old(self).x_position,
                self.y_position == old(self).y_position,
                self.resize_scale == old(self).resize_scale,
                self.rotation == old(self).rotation,
                self.name == old(self).name,
                orig == old(self).rules@,
                forall|k: int| 0 <= k < j ==> (#[trigger] self.rules@[k])@ == retag_rule(
                    orig[k]@,
                    from as int,
                    to as int,
                ),
                forall|k: int| j <= k < orig.len() ==> self.rules@[k] == orig[k],
            decreases self.rules.len() - j,
        {
            let mut tmp = Rule::new();
            self.rules.set_and_swap(j, &mut tmp);
            tmp.replace_block_tags(from, to);
            self.rules.set_and_swap(j, &mut tmp);
            j = j + 1;
        }
        proof {
            assert(self@.rules =~= retag_obj(old(self)@, from as int, to as int).rules);
        }
    }
}

impl Scene {
    /// Rewrites every object of this scene.
    pub fn replace_block_tags(&mut self, from: i64, to: i64)
        ensures
            final(self)@ =~= retag_scene(old(self)@, from as int, to as int),
    {
        let ghost orig = self.objects@;
        let mut j: usize = 0;
        while j < self.objects.len()
            invariant
                j <= self.objects.len(),
                self.objects@.len() == orig.len(),
                self.name == old(self).name,
                orig == old(self).objects@,
                forall|k: int| 0 <= k < j ==> (#[trigger] self.objects@[k])@ == retag_obj(
                    orig[k]@,
                    from as int,
                    to as int,
                ),
                forall|k: int| j <= k < orig.len() ==> self.objects@[k] == orig[k],
            decreases self.objects.len() - j,
        {
            let mut tmp = Object::new(
                ObjectType {
                    hs_type: 0,
                    filename: String::new(),
                    width: String::new(),
                    height: String::new(),
                },
                String::new(),
            );
            self.objects.set_and_swap(j, &mut tmp);
            tmp.replace_block_tags(from, to);
            self.objects.set_and_swap(j, &mut tmp);
            j = j + 1;
        }
        proof {
            assert(self@.objects =~= retag_scene(old(self)@, from as int, to as int).objects);
        }
    }
}

// ---------------------------------------------------------------------
// The general rewrite: a caller-supplied tag map, first matching pair
// wins, unmatched tags stay.  `replace_block_tags` is the one-pair case.
// ---------------------------------------------------------------------

/// The tag a map sends `x` to: the second component of the first pair
/// whose first component is `x`, or `x` itself when no pair matches.
pub open spec fn map_tag(pairs: Seq<(i64, i64)>, x: int) -> int
    decreases pairs.len(),
{
    if pairs.len() == 0 {
        x
    } else if pairs[0].0 as int == x {
        pairs[0].1 as int
    } else {
        map_tag(pairs.skip(1), x)
    }
}

/// On a one-pair map the general rewrite is exactly the single retag.
pub proof fn lemma_single_pair_map(from: i64, to: i64, x: int)
    ensures
        map_tag(seq![(from, to)], x) == retag_tag(x, from as int, to as int),
{
    let s = seq![(from, to)];
    assert(s.skip(1) =~= Seq::<(i64, i64)>::empty());
    assert(map_tag(s.skip(1), x) == x);
    assert(s[0] == (from, to));
}

pub open spec fn rewrite_block(b: BlockT, pairs: Seq<(i64, i64)>) -> BlockT {
    BlockT { tag: map_tag(pairs, b.tag) }
}

pub open spec fn rewrite_blocks(bs: Seq<BlockT>, pairs: Seq<(i64, i64)>) -> Seq<BlockT> {
    bs.map_values(|b: BlockT| rewrite_block(b, pairs))
}

pub open spec fn rewrite_rule(r: RuleT, pairs: Seq<(i64, i64)>) -> RuleT {
    RuleT {
        event: match r.event {
            Option::None => Option::None,
            Option::Some(b) => Option::Some(rewrite_block(b, pairs)),
        },
        body: rewrite_blocks(r.body, pairs),
    }
}

pub open spec fn rewrite_obj(o: ObjT, pairs: Seq<(i64, i64)>) -> ObjT {
    ObjT {
        pre: rewrite_blocks(o.pre, pairs),
        rules: o.rules.map_values(|r: RuleT| rewrite_rule(r, pairs)),
        ..o
    }
}

pub open spec fn rewrite_scene(s: SceneT, pairs: Seq<(i64, i64)>) -> SceneT {
    SceneT { name: s.name, objects: s.objects.map_values(|o: ObjT| rewrite_obj(o, pairs)) }
}

/// The general rewrite as a mathematical function: every block's tag goes
/// through the map; everything else is untouched.
pub open spec fn rewrite_spec(t: ProjT, pairs: Seq<(i64, i64)>) -> ProjT {
    ProjT { scenes: t.scenes.map_values(|s: SceneT| rewrite_scene(s, pairs)) }
}

proof fn lemma_map_tag_at(pairs: Seq<(i64, i64)>, x: int, p: int)
    requires
        0 <= p < pairs.len(),
        pairs[p].0 as int == x,
        forall|q: int| 0 <= q < p ==> (#[trigger] pairs[q]).0 as int != x,
    ensures
        map_tag(pairs, x) == pairs[p].1 as int,
    decreases p,
{
    if p > 0 {
        assert(pairs[0].0 as int != x);
        assert(pairs.skip(1)[p - 1] == pairs[p]);
        assert forall|q: int| 0 <= q < p - 1 implies (#[trigger] pairs.skip(1)[q]).0 as int
            != x by {
            assert(pairs.skip(1)[q] == pairs[q + 1]);
        }
        lemma_map_tag_at(pairs.skip(1), x, p - 1);
    }
}

proof fn lemma_map_tag_absent(pairs: Seq<(i64, i64)>, x: int)
    requires
        forall|q: int| 0 <= q < pairs.len() ==> (#[trigger] pairs[q]).0 as int != x,
    ensures
        map_tag(pairs, x) == x,
    decreases pairs.len(),
{
    if pairs.len() > 0 {
        assert forall|q: int| 0 <= q < pairs.len() - 1 implies (#[trigger] pairs.skip(1)[q]).0
            as int != x by {
            assert(pairs.skip(1)[q] == pairs[q + 1]);
        }
        lemma_map_tag_absent(pairs.skip(1), x);
    }
}

/// Sends one tag through the map.
fn apply_tag_map(pairs: &Vec<(i64, i64)>, tag: i64) -> (r: i64)
    ensures
        r as int == map_tag(pairs@, tag as int),
{
    let mut i: usize = 0;
    while i < pairs.len()
        invariant
            i <= pairs.len(),
            forall|q: int| 0 <= q < i ==> (#[trigger] pairs@[q]).0 != tag,
        decreases pairs.len() - i,
    {
        if pairs[i].0 == tag {
            proof {
                lemma_map_tag_at(pairs@, tag as int, i as int);
            }
            return pairs[i].1;
        }
        i = i + 1;
    }
    proof {
        lemma_map_tag_absent(pairs@, tag as int);
    }
    tag
}

/// Sends each block of `blocks` through the map.
fn rewrite_block_vec(blocks: &mut Vec<Block>, pairs: &Vec<(i64, i64)>)
    ensures
        final(blocks)@.map_values(|b: Block| b@) =~= rewrite_blocks(
            old(blocks)@.map_values(|b: Block| b@),
            pairs@,
        ),
{
    let ghost orig = blocks@;
    let mut i: usize = 0;
    while i < blocks.len()
        invariant
            i <= blocks.len(),
            blocks@.len() == orig.len(),
            forall|k: int| 0 <= k < i ==> (#[trigger] blocks@[k])@ == rewrite_block(
                orig[k]@,
                pairs@,
            ),
            forall|k: int| i <= k < orig.len() ==> blocks@[k] == orig[k],
        decreases blocks.len() - i,
    {
        let tag = blocks[i].hs_type.to_low_level();
        let new_tag = apply_tag_map(pairs, tag);
        blocks.set(i, Block { hs_type: BlockType::ArbitraryID(new_tag) });
        i = i + 1;
    }
}

impl Rule {
    /// Sends this rule's event block (when present) and body blocks
    /// through the map.
    pub fn rewrite_block_tags(&mut self, pairs: &Vec<(i64, i64)>)
        ensures
            final(self)@ =~= rewrite_rule(old(self)@, pairs@),
    {
        match &self.event {
            None => {},
            Some(b) => {
                let tag = b.hs_type.to_low_level();
                let new_tag = apply_tag_map(pairs, tag);
                self.event = Some(Block { hs_type: BlockType::ArbitraryID(new_tag) });
            },
        }
        rewrite_block_vec(&mut self.blocks, pairs);
    }
}

impl Object {
    /// Sends this object's pre-game blocks and every rule through the
    /// map.
    pub fn rewrite_block_tags(&mut self, pairs: &Vec<(i64, i64)>)
        ensures
            final(self)@ =~= rewrite_obj(old(self)@, pairs@),
    {
        rewrite_block_vec(&mut self.before_game_starts_blocks, pairs);
        let ghost orig = self.rules@;
        let mut j: usize = 0;
        while j < self.rules.len()
            invariant
                j <= self.rules.len(),
                self.rules@.len() == orig.len(),
                self.before_game_starts_blocks@.map_values(|b: Block| b@) =~= rewrite_blocks(
                    old(self)@.pre,
                    pairs@,
                ),
                self.hs_type == old(self).hs_type,
                self.x_position == old(self).x_position,
                self.y_position == old(self).y_position,
                self.resize_scale == old(self).resize_scale,
                self.rotation == old(self).rotation,
                self.name == old(self).name,
                orig == old(self).rules@,
                forall|k: int| 0 <= k < j ==> (#[trigger] self.rules@[k])@ == rewrite_rule(
                    orig[k]@,
                    pairs@,
                ),
                forall|k: int| j <= k < orig.len() ==> self.rules@[k] == orig[k],
            decreases self.rules.len() - j,
        {
            let mut tmp = Rule::new();
            self.rules.set_and_swap(j, &mut tmp);
            tmp.rewrite_block_tags(pairs);
            self.rules.set_and_swap(j, &mut tmp);
            j = j + 1;
        }
        proof {
            assert(self@.rules =~= rewrite_obj(old(self)@, pairs@).rules);
        }
    }
}

impl Scene {
    /// Sends every object of this scene through the map.
    pub fn rewrite_block_tags(&mut self, pairs: &Vec<(i64, i64)>)
        ensures
            final(self)@ =~= rewrite_scene(old(self)@, pairs@),
    {
        let ghost orig = self.objects@;
        let mut j: usize = 0;
        while j < self.objects.len()
            invariant
                j <= self.objects.len(),
                self.objects@.len() == orig.len(),
                self.name == old(self).name,
                orig == old(self).objects@,
                forall|k: int| 0 <= k < j ==> (#[trigger] self.objects@[k])@ == rewrite_obj(
                    orig[k]@,
                    pairs@,
                ),
                forall|k: int| j <= k < orig.len() ==> self.objects@[k] == orig[k],
            decreases self.objects.len() - j,
        {
            let mut tmp = Object::new(
                ObjectType {
                    hs_type: 0,
                    filename: String::new(),
                    width: String::new(),
                    height: String::new(),
                },
                String::new(),
            );
            self.objects.set_and_swap(j, &mut tmp);
            tmp.rewrite_block_tags(pairs);
            self.objects.set_and_swap(j, &mut tmp);
            j = j + 1;
        }
        proof {
            assert(self@.objects =~= rewrite_scene(old(self)@, pairs@).objects);
        }
    }
}

impl Project {
    /// Sends every block tag in the tree through the map, in one
    /// traversal pass: the first matching pair rewrites a tag, an
    /// unmatched tag stays.
    pub fn rewrite_block_tags(&mut self, pairs: &Vec<(i64, i64)>)
        ensures
            final(self)@ =~= rewrite_spec(old(self)@, pairs@),
    {
        let ghost orig = self.scenes@;
        let mut j: usize = 0;
        while j < self.scenes.len()
            invariant
                j <= self.scenes.len(),
                self.scenes@.len() == orig.len(),
                orig == old(self).scenes@,
                forall|k: int| 0 <= k < j ==> (#[trigger] self.scenes@[k])@ == rewrite_scene(
                    orig[k]@,
                    pairs@,
                ),
                forall|k: int| j <= k < orig.len() ==> self.scenes@[k] == orig[k],
            decreases self.scenes.len() - j,
        {
            let mut tmp = Scene { objects: Vec::new(), name: String::new() };
            self.scenes.set_and_swap(j, &mut tmp);
            tmp.rewrite_block_tags(pairs);
            self.scenes.set_and_swap(j, &mut tmp);
            j = j + 1;
        }
        proof {
            assert(self@.scenes =~= rewrite_spec(old(self)@, pairs@).scenes);
        }
    }
}

proof fn lemma_rule_tags_rewrite(r: RuleT, pairs: Seq<(i64, i64)>)
    ensures
        rule_tags(rewrite_rule(r, pairs)) =~= rule_tags(r).map_values(
            |x: int| map_tag(pairs, x),
        ),
{
}

proof fn lemma_rules_tags_rewrite(rs: Seq<RuleT>, pairs: Seq<(i64, i64)>)
    ensures
        rules_tags(rs.map_values(|r: RuleT| rewrite_rule(r, pairs))) =~= rules_tags(
            rs,
        ).map_values(|x: int| map_tag(pairs, x)),
    decreases rs.len(),
{
    let rr = rs.map_values(|r: RuleT| rewrite_rule(r, pairs));
    if rs.len() > 0 {
        lemma_rules_tags_rewrite(rs.drop_last(), pairs);
        lemma_rule_tags_rewrite(rs.last(), pairs);
        assert(rr.drop_last() =~= rs.drop_last().map_values(|r: RuleT| rewrite_rule(r, pairs)));
        assert(rr.last() == rewrite_rule(rs.last(), pairs));
        assert(rules_tags(rr) == rules_tags(rr.drop_last()) + rule_tags(rr.last()));
    }
}

proof fn lemma_obj_tags_rewrite(o: ObjT, pairs: Seq<(i64, i64)>)
    ensures
        obj_tags(rewrite_obj(o, pairs)) =~= obj_tags(o).map_values(|x: int| map_tag(pairs, x)),
{
    lemma_rules_tags_rewrite(o.rules, pairs);
}

proof fn lemma_objs_tags_rewrite(os: Seq<ObjT>, pairs: Seq<(i64, i64)>)
    ensures
        objs_tags(os.map_values(|o: ObjT| rewrite_obj(o, pairs))) =~= objs_tags(os).map_values(
            |x: int| map_tag(pairs, x),
        ),
    decreases os.len(),
{
    let ro = os.map_values(|o: ObjT| rewrite_obj(o, pairs));
    if os.len() > 0 {
        lemma_objs_tags_rewrite(os.drop_last(), pairs);
        lemma_obj_tags_rewrite(os.last(), pairs);
        assert(ro.drop_last() =~= os.drop_last().map_values(|o: ObjT| rewrite_obj(o, pairs)));
        assert(ro.last() == rewrite_obj(os.last(), pairs));
        assert(objs_tags(ro) == objs_tags(ro.drop_last()) + obj_tags(ro.last()));
    }
}

proof fn lemma_scenes_tags_rewrite(ss: Seq<SceneT>, pairs: Seq<(i64, i64)>)
    ensures
        scenes_tags(ss.map_values(|s: SceneT| rewrite_scene(s, pairs))) =~= scenes_tags(
            ss,
        ).map_values(|x: int| map_tag(pairs, x)),
    decreases ss.len(),
{
    let rs = ss.map_values(|s: SceneT| rewrite_scene(s, pairs));
    if ss.len() > 0 {
        lemma_scenes_tags_rewrite(ss.drop_last(), pairs);
        lemma_objs_tags_rewrite(ss.last().objects, pairs);
        assert(rs.drop_last() =~= ss.drop_last().map_values(|s: SceneT| rewrite_scene(s, pairs)));
        assert(rs.last() == rewrite_scene(ss.last(), pairs));
        assert(scenes_tags(rs) == scenes_tags(rs.drop_last()) + scene_tags(rs.last()));
        assert(scene_tags(rs.last()) =~= scene_tags(ss.last()).map_values(
            |x: int| map_tag(pairs, x),
        ));
    }
}

/// The general rewrite seen through the traversal: the rewritten tree's
/// tag sequence is the original tag sequence with each tag sent through
/// the map, in unchanged order.
pub proof fn lemma_rewrite_map_tags(t: ProjT, pairs: Seq<(i64, i64)>)
    ensures
        tag_seq(rewrite_spec(t, pairs)) =~= tag_seq(t).map_values(|x: int| map_tag(pairs, x)),
{
    lemma_scenes_tags_rewrite(t.scenes, pairs);
}

impl Project {
    /// Rewrites every block in the tree whose tag is `from` to carry
    /// `to`, in one traversal pass.
    pub fn replace_block_tags(&mut self, from: i64, to: i64)
        ensures
            final(self)@ =~= retag_spec(old(self)@, from as int, to as int),
    {
        let ghost orig = self.scenes@;
        let mut j: usize = 0;
        while j < self.scenes.len()
            invariant
                j <= self.scenes.len(),
                self.scenes@.len() == orig.len(),
                orig == old(self).scenes@,
                forall|k: int| 0 <= k < j ==> (#[trigger] self.scenes@[k])@ == retag_scene(
                    orig[k]@,
                    from as int,
                    to as int,
                ),
                forall|k: int| j <= k < orig.len() ==> self.scenes@[k] == orig[k],
            decreases self.scenes.len() - j,
        {
            let mut tmp = Scene { objects: Vec::new(), name: String::new() };
            self.scenes.set_and_swap(j, &mut tmp);
            tmp.replace_block_tags(from, to);
            self.scenes.set_and_swap(j, &mut tmp);
            j = j + 1;
        }
        proof {
            assert(self@.scenes =~= retag_spec(old(self)@, from as int, to as int).scenes);
        }
    }
}

} // verus!
