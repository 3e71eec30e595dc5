//! The laws relating the passes to one another, stated and proved over the
//! mathematical models: loading after saving restores the tree, dangling
//! references resolve to the documented placeholders, broken numeric text
//! resolves to the documented defaults, and a rewrite before saving is
//! what a reader of the saved document sees.

use vstd::prelude::*;

use crate::flatten::{
    empty_st, fl_ability, fl_object, fl_objects, fl_rule, fl_rules, fl_scene, fl_scenes,
    flatten_spec, id_str, lemma_fl_rules_c, lemma_id_str_injective, rule_out_tag, wire_block_list,
    FlatSt,
};
use crate::resolve::{
    placeholder_obj, resolve_spec, rs_block, rs_block_list, rs_blocks_of, rs_object,
    rs_object_record, rs_rule, rs_rule_list, rs_rule_record, rs_scene,
};
use crate::text::is_num;
use crate::traverse::{retag_obj, retag_rule, retag_scene, retag_spec};
use crate::tree::{
    all_rules_evented, obj_evented, scene_evented, wf_obj, wf_scene, wf_tree, BlockT, ObjT, ProjT,
    RuleT, SceneT,
};
use crate::wire::{
    abil_key, find_abil, find_first, find_obj, find_rule, lemma_find_first_present, obj_key,
    rule_key, scene_key, AbilW, BlockW, ObjW, ProjW, RuleW, SceneW, StageW, SENTINEL_TAG,
};

verus! {

broadcast use vstd::seq_lib::group_seq_properties;

// ---------------------------------------------------------------------
// Minted identifiers: every identifier a flattening has appended carries
// a counter stamp below the state's counter, and identifiers within one
// collection are pairwise distinct.
// ---------------------------------------------------------------------

pub open spec fn stamped_id(id: Seq<char>, pfx: Seq<char>, c: int) -> bool {
    exists|k: nat| k < c && id == id_str(pfx, k)
}

pub open spec fn ids_stamped<T>(s: Seq<T>, key: spec_fn(T) -> Seq<char>, pfx: Seq<char>, c: int) -> bool {
    forall|i: int| 0 <= i < s.len() ==> stamped_id(key(#[trigger] s[i]), pfx, c)
}

pub open spec fn ids_distinct<T>(s: Seq<T>, key: spec_fn(T) -> Seq<char>) -> bool {
    forall|i: int, j: int| 0 <= i < j < s.len() ==> key(#[trigger] s[i]) != key(#[trigger] s[j])
}

/// A healthy flattening state: every appended identifier is a stamp below
/// the counter, and no two records of a collection share one.
pub open spec fn st_ok(st: FlatSt, pfx: Seq<char>) -> bool {
    ids_stamped(st.scenes, scene_key(), pfx, st.c as int) && ids_stamped(
        st.objects,
        obj_key(),
        pfx,
        st.c as int,
    ) && ids_stamped(st.rules, rule_key(), pfx, st.c as int) && ids_stamped(
        st.abilities,
        abil_key(),
        pfx,
        st.c as int,
    ) && ids_distinct(st.scenes, scene_key()) && ids_distinct(st.objects, obj_key())
        && ids_distinct(st.rules, rule_key()) && ids_distinct(st.abilities, abil_key())
}

proof fn lemma_stamped_mono(id: Seq<char>, pfx: Seq<char>, c1: int, c2: int)
    requires
        stamped_id(id, pfx, c1),
        c1 <= c2,
    ensures
        stamped_id(id, pfx, c2),
{
    let k = choose|k: nat| k < c1 && id == id_str(pfx, k);
    assert(k < c2 && id == id_str(pfx, k));
}

proof fn lemma_ids_stamped_mono<T>(s: Seq<T>, key: spec_fn(T) -> Seq<char>, pfx: Seq<char>, c1: int, c2: int)
    requires
        ids_stamped(s, key, pfx, c1),
        c1 <= c2,
    ensures
        ids_stamped(s, key, pfx, c2),
{
    assert forall|i: int| 0 <= i < s.len() implies stamped_id(key(#[trigger] s[i]), pfx, c2) by {
        lemma_stamped_mono(key(s[i]), pfx, c1, c2);
    }
}

proof fn lemma_stamped_ne(id: Seq<char>, pfx: Seq<char>, c: int, cx: nat)
    requires
        stamped_id(id, pfx, c),
        c <= cx,
    ensures
        id != id_str(pfx, cx),
{
    let k = choose|k: nat| k < c && id == id_str(pfx, k);
    if id == id_str(pfx, cx) {
        lemma_id_str_injective(pfx, k, cx);
    }
}

proof fn lemma_append_id_ok<T>(
    s: Seq<T>,
    key: spec_fn(T) -> Seq<char>,
    pfx: Seq<char>,
    c: int,
    cx: nat,
    x: T,
)
    requires
        ids_stamped(s, key, pfx, c),
        ids_distinct(s, key),
        c <= cx,
        key(x) == id_str(pfx, cx),
    ensures
        ids_stamped(s.push(x), key, pfx, cx + 1 as int),
        ids_distinct(s.push(x), key),
{
    assert forall|i: int| 0 <= i < s.push(x).len() implies stamped_id(
        key(#[trigger] s.push(x)[i]),
        pfx,
        cx as int + 1,
    ) by {
        if i < s.len() {
            assert(s.push(x)[i] == s[i]);
            lemma_stamped_mono(key(s[i]), pfx, c, cx as int + 1);
        } else {
            assert(s.push(x)[i] == x);
            assert(cx < cx + 1 && key(x) == id_str(pfx, cx));
        }
    }
    assert forall|i: int, j: int| 0 <= i < j < s.push(x).len() implies key(#[trigger] s.push(x)[i])
        != key(#[trigger] s.push(x)[j]) by {
        if j < s.len() {
            assert(s.push(x)[i] == s[i] && s.push(x)[j] == s[j]);
        } else {
            assert(s.push(x)[i] == s[i] && s.push(x)[j] == x);
            lemma_stamped_ne(key(s[i]), pfx, c, cx);
        }
    }
}

// ---------------------------------------------------------------------
// Each flattening step keeps the state healthy.
// ---------------------------------------------------------------------

proof fn lemma_fl_ability_ok(st: FlatSt, bs: Seq<BlockT>, pfx: Seq<char>, at: int)
    requires
        st_ok(st, pfx),
    ensures
        st_ok(fl_ability(st, bs, pfx, at).0, pfx),
{
    let post = fl_ability(st, bs, pfx, at).0;
    lemma_append_id_ok(st.abilities, abil_key(), pfx, st.c as int, st.c, post.abilities.last());
    lemma_ids_stamped_mono(st.scenes, scene_key(), pfx, st.c as int, post.c as int);
    lemma_ids_stamped_mono(st.objects, obj_key(), pfx, st.c as int, post.c as int);
    lemma_ids_stamped_mono(st.rules, rule_key(), pfx, st.c as int, post.c as int);
}

proof fn lemma_fl_rule_ok(st: FlatSt, r: RuleT, pfx: Seq<char>, at: int)
    requires
        st_ok(st, pfx),
    ensures
        st_ok(fl_rule(st, r, pfx, at).0, pfx),
{
    lemma_fl_ability_ok(st, r.body, pfx, at);
    let st1 = fl_ability(st, r.body, pfx, at).0;
    let post = fl_rule(st, r, pfx, at).0;
    lemma_append_id_ok(st1.rules, rule_key(), pfx, st1.c as int, st1.c, post.rules.last());
    lemma_ids_stamped_mono(st1.scenes, scene_key(), pfx, st1.c as int, post.c as int);
    lemma_ids_stamped_mono(st1.objects, obj_key(), pfx, st1.c as int, post.c as int);
    lemma_ids_stamped_mono(st1.abilities, abil_key(), pfx, st1.c as int, post.c as int);
}

proof fn lemma_fl_rules_ok(st: FlatSt, rs: Seq<RuleT>, pfx: Seq<char>, at: int)
    requires
        st_ok(st, pfx),
    ensures
        st_ok(fl_rules(st, rs, pfx, at).0, pfx),
    decreases rs.len(),
{
    if rs.len() > 0 {
        lemma_fl_rules_ok(st, rs.drop_last(), pfx, at);
        lemma_fl_rule_ok(fl_rules(st, rs.drop_last(), pfx, at).0, rs.last(), pfx, at);
    }
}

proof fn lemma_fl_object_ok(st: FlatSt, o: ObjT, pfx: Seq<char>, at: int)
    requires
        st_ok(st, pfx),
    ensures
        st_ok(fl_object(st, o, pfx, at).0, pfx),
{
    lemma_fl_ability_ok(st, o.pre, pfx, at);
    let st1 = fl_ability(st, o.pre, pfx, at).0;
    lemma_fl_rules_ok(st1, o.rules, pfx, at);
    let st2 = fl_rules(st1, o.rules, pfx, at).0;
    let post = fl_object(st, o, pfx, at).0;
    lemma_append_id_ok(st2.objects, obj_key(), pfx, st2.c as int, st2.c, post.objects.last());
    lemma_ids_stamped_mono(st2.scenes, scene_key(), pfx, st2.c as int, post.c as int);
    lemma_ids_stamped_mono(st2.rules, rule_key(), pfx, st2.c as int, post.c as int);
    lemma_ids_stamped_mono(st2.abilities, abil_key(), pfx, st2.c as int, post.c as int);
}

proof fn lemma_fl_objects_ok(st: FlatSt, os: Seq<ObjT>, pfx: Seq<char>, at: int)
    requires
        st_ok(st, pfx),
    ensures
        st_ok(fl_objects(st, os, pfx, at).0, pfx),
    decreases os.len(),
{
    if os.len() > 0 {
        lemma_fl_objects_ok(st, os.drop_last(), pfx, at);
        lemma_fl_object_ok(fl_objects(st, os.drop_last(), pfx, at).0, os.last(), pfx, at);
    }
}

proof fn lemma_fl_scene_ok(st: FlatSt, s: SceneT, pfx: Seq<char>, at: int)
    requires
        st_ok(st, pfx),
    ensures
        st_ok(fl_scene(st, s, pfx, at), pfx),
{
    lemma_fl_objects_ok(st, s.objects, pfx, at);
    let st1 = fl_objects(st, s.objects, pfx, at).0;
    let post = fl_scene(st, s, pfx, at);
    lemma_append_id_ok(st1.scenes, scene_key(), pfx, st1.c as int, st1.c, post.scenes.last());
    lemma_ids_stamped_mono(st1.objects, obj_key(), pfx, st1.c as int, post.c as int);
    lemma_ids_stamped_mono(st1.rules, rule_key(), pfx, st1.c as int, post.c as int);
    lemma_ids_stamped_mono(st1.abilities, abil_key(), pfx, st1.c as int, post.c as int);
}

proof fn lemma_fl_scenes_ok(st: FlatSt, ss: Seq<SceneT>, pfx: Seq<char>, at: int)
    requires
        st_ok(st, pfx),
    ensures
        st_ok(fl_scenes(st, ss, pfx, at), pfx),
    decreases ss.len(),
{
    if ss.len() > 0 {
        lemma_fl_scenes_ok(st, ss.drop_last(), pfx, at);
        lemma_fl_scene_ok(fl_scenes(st, ss.drop_last(), pfx, at), ss.last(), pfx, at);
    }
}

// ---------------------------------------------------------------------
// A flattening step only appends: its input state is a prefix of its
// output state.
// ---------------------------------------------------------------------

pub open spec fn seq_prefix<T>(a: Seq<T>, b: Seq<T>) -> bool {
    a.len() <= b.len() && a == b.take(a.len() as int)
}

pub open spec fn st_prefix(a: FlatSt, b: FlatSt) -> bool {
    seq_prefix(a.scenes, b.scenes) && seq_prefix(a.objects, b.objects) && seq_prefix(
        a.rules,
        b.rules,
    ) && seq_prefix(a.abilities, b.abilities)
}

proof fn lemma_prefix_refl<T>(a: Seq<T>)
    ensures
        seq_prefix(a, a),
{
    assert(a =~= a.take(a.len() as int));
}

proof fn lemma_prefix_push<T>(a: Seq<T>, x: T)
    ensures
        seq_prefix(a, a.push(x)),
{
    assert(a =~= a.push(x).take(a.len() as int));
}

proof fn lemma_prefix_trans<T>(a: Seq<T>, b: Seq<T>, c: Seq<T>)
    requires
        seq_prefix(a, b),
        seq_prefix(b, c),
    ensures
        seq_prefix(a, c),
{
    assert(a =~= c.take(a.len() as int)) by {
        assert forall|i: int| 0 <= i < a.len() implies a[i] == c.take(a.len() as int)[i] by {
            assert(a[i] == b.take(a.len() as int)[i]);
            assert(b[i] == c.take(b.len() as int)[i]);
        }
    }
}

proof fn lemma_prefix_index<T>(a: Seq<T>, b: Seq<T>, i: int)
    requires
        seq_prefix(a, b),
        0 <= i < a.len(),
    ensures
        b[i] == a[i],
{
    assert(a[i] == b.take(a.len() as int)[i]);
}

proof fn lemma_st_prefix_refl(a: FlatSt)
    ensures
        st_prefix(a, a),
{
    lemma_prefix_refl(a.scenes);
    lemma_prefix_refl(a.objects);
    lemma_prefix_refl(a.rules);
    lemma_prefix_refl(a.abilities);
}

proof fn lemma_st_prefix_trans(a: FlatSt, b: FlatSt, c: FlatSt)
    requires
        st_prefix(a, b),
        st_prefix(b, c),
    ensures
        st_prefix(a, c),
{
    lemma_prefix_trans(a.scenes, b.scenes, c.scenes);
    lemma_prefix_trans(a.objects, b.objects, c.objects);
    lemma_prefix_trans(a.rules, b.rules, c.rules);
    lemma_prefix_trans(a.abilities, b.abilities, c.abilities);
}

proof fn lemma_fl_ability_extends(st: FlatSt, bs: Seq<BlockT>, pfx: Seq<char>, at: int)
    ensures
        st_prefix(st, fl_ability(st, bs, pfx, at).0),
{
    lemma_prefix_refl(st.scenes);
    lemma_prefix_refl(st.objects);
    lemma_prefix_refl(st.rules);
    lemma_prefix_push(st.abilities, fl_ability(st, bs, pfx, at).0.abilities.last());
}

proof fn lemma_fl_rule_extends(st: FlatSt, r: RuleT, pfx: Seq<char>, at: int)
    ensures
        st_prefix(st, fl_rule(st, r, pfx, at).0),
{
    lemma_fl_ability_extends(st, r.body, pfx, at);
    let st1 = fl_ability(st, r.body, pfx, at).0;
    lemma_prefix_refl(st1.scenes);
    lemma_prefix_refl(st1.objects);
    lemma_prefix_refl(st1.abilities);
    lemma_prefix_push(st1.rules, fl_rule(st, r, pfx, at).0.rules.last());
    lemma_st_prefix_trans(st, st1, fl_rule(st, r, pfx, at).0);
}

proof fn lemma_fl_rules_extends(st: FlatSt, rs: Seq<RuleT>, pfx: Seq<char>, at: int)
    ensures
        st_prefix(st, fl_rules(st, rs, pfx, at).0),
    decreases rs.len(),
{
    if rs.len() == 0 {
        lemma_st_prefix_refl(st);
    } else {
        lemma_fl_rules_extends(st, rs.drop_last(), pfx, at);
        let prev = fl_rules(st, rs.drop_last(), pfx, at).0;
        lemma_fl_rule_extends(prev, rs.last(), pfx, at);
        lemma_st_prefix_trans(st, prev, fl_rules(st, rs, pfx, at).0);
    }
}

proof fn lemma_fl_object_extends(st: FlatSt, o: ObjT, pfx: Seq<char>, at: int)
    ensures
        st_prefix(st, fl_object(st, o, pfx, at).0),
{
    lemma_fl_ability_extends(st, o.pre, pfx, at);
    let st1 = fl_ability(st, o.pre, pfx, at).0;
    lemma_fl_rules_extends(st1, o.rules, pfx, at);
    let st2 = fl_rules(st1, o.rules, pfx, at).0;
    lemma_st_prefix_trans(st, st1, st2);
    let post = fl_object(st, o, pfx, at).0;
    lemma_prefix_refl(st2.scenes);
    lemma_prefix_refl(st2.rules);
    lemma_prefix_refl(st2.abilities);
    lemma_prefix_push(st2.objects, post.objects.last());
    lemma_st_prefix_trans(st, st2, post);
}

proof fn lemma_fl_objects_extends(st: FlatSt, os: Seq<ObjT>, pfx: Seq<char>, at: int)
    ensures
        st_prefix(st, fl_objects(st, os, pfx, at).0),
    decreases os.len(),
{
    if os.len() == 0 {
        lemma_st_prefix_refl(st);
    } else {
        lemma_fl_objects_extends(st, os.drop_last(), pfx, at);
        let prev = fl_objects(st, os.drop_last(), pfx, at).0;
        lemma_fl_object_extends(prev, os.last(), pfx, at);
        lemma_st_prefix_trans(st, prev, fl_objects(st, os, pfx, at).0);
    }
}

proof fn lemma_fl_scene_extends(st: FlatSt, s: SceneT, pfx: Seq<char>, at: int)
    ensures
        st_prefix(st, fl_scene(st, s, pfx, at)),
{
    lemma_fl_objects_extends(st, s.objects, pfx, at);
    let st1 = fl_objects(st, s.objects, pfx, at).0;
    let post = fl_scene(st, s, pfx, at);
    lemma_prefix_refl(st1.objects);
    lemma_prefix_refl(st1.rules);
    lemma_prefix_refl(st1.abilities);
    lemma_prefix_push(st1.scenes, post.scenes.last());
    lemma_st_prefix_trans(st, st1, post);
}

proof fn lemma_fl_scenes_extends(st: FlatSt, ss: Seq<SceneT>, pfx: Seq<char>, at: int)
    ensures
        st_prefix(st, fl_scenes(st, ss, pfx, at)),
    decreases ss.len(),
{
    if ss.len() == 0 {
        lemma_st_prefix_refl(st);
    } else {
        lemma_fl_scenes_extends(st, ss.drop_last(), pfx, at);
        let prev = fl_scenes(st, ss.drop_last(), pfx, at);
        lemma_fl_scene_extends(prev, ss.last(), pfx, at);
        lemma_st_prefix_trans(st, prev, fl_scenes(st, ss, pfx, at));
    }
}

// ---------------------------------------------------------------------
// Resolution after flattening, record by record.
// ---------------------------------------------------------------------

/// The wire container a final flattening state denotes.
pub open spec fn pw(st: FlatSt) -> ProjW {
    ProjW {
        scenes: st.scenes,
        stage_size: StageW { width: 1024, height: 768 },
        player_version: "3.0.0"@,
        version: 34,
        abilities: st.abilities,
        font_size: 80,
        objects: st.objects,
        requires_beta_editor: false,
        rules: st.rules,
    }
}

proof fn lemma_fl_rules_frame(st: FlatSt, rs: Seq<RuleT>, pfx: Seq<char>, at: int)
    ensures
        fl_rules(st, rs, pfx, at).0.objects == st.objects,
        fl_rules(st, rs, pfx, at).0.scenes == st.scenes,
    decreases rs.len(),
{
    if rs.len() > 0 {
        lemma_fl_rules_frame(st, rs.drop_last(), pfx, at);
    }
}

proof fn lemma_fl_objects_frame(st: FlatSt, os: Seq<ObjT>, pfx: Seq<char>, at: int)
    ensures
        fl_objects(st, os, pfx, at).0.scenes == st.scenes,
    decreases os.len(),
{
    if os.len() > 0 {
        lemma_fl_objects_frame(st, os.drop_last(), pfx, at);
        let prev = fl_objects(st, os.drop_last(), pfx, at).0;
        lemma_fl_rules_frame(
            fl_ability(prev, os.last().pre, pfx, at).0,
            os.last().rules,
            pfx,
            at,
        );
    }
}

proof fn lemma_find_at<T>(s: Seq<T>, key: spec_fn(T) -> Seq<char>, id: Seq<char>, p: int)
    requires
        ids_distinct(s, key),
        0 <= p < s.len(),
        key(s[p]) == id,
    ensures
        find_first(s, key, id) == Option::Some(s[p]),
{
    assert forall|q: int| 0 <= q < p implies key(#[trigger] s[q]) != id by {
        assert(key(s[q]) != key(s[p]));
    }
    lemma_find_first_present(s, key, id, p);
}

proof fn lemma_rt_ability(st: FlatSt, bs: Seq<BlockT>, pfx: Seq<char>, at: int, fin: FlatSt)
    requires
        st_prefix(fl_ability(st, bs, pfx, at).0, fin),
        ids_distinct(fin.abilities, abil_key()),
    ensures
        rs_blocks_of(find_abil(fin.abilities, fl_ability(st, bs, pfx, at).1)) =~= bs,
{
    let post = fl_ability(st, bs, pfx, at).0;
    let aid = fl_ability(st, bs, pfx, at).1;
    let rec = post.abilities.last();
    let p = st.abilities.len() as int;
    lemma_prefix_index(post.abilities, fin.abilities, p);
    assert(fin.abilities[p] == rec);
    lemma_find_at(fin.abilities, abil_key(), aid, p);
    assert(find_abil(fin.abilities, aid) == Option::Some(rec));
    assert forall|i: int| 0 <= i < bs.len() implies rs_block_list(wire_block_list(bs))[i]
        == bs[i] by {
        assert(rs_block(crate::flatten::block_to_wire(bs[i])) =~= bs[i]);
    }
    assert(rs_blocks_of(Option::Some(rec)) =~= bs);
}

proof fn lemma_rt_rule(st: FlatSt, r: RuleT, pfx: Seq<char>, at: int, fin: FlatSt)
    requires
        r.event is Some,
        st_prefix(fl_rule(st, r, pfx, at).0, fin),
        ids_distinct(fin.rules, rule_key()),
        ids_distinct(fin.abilities, abil_key()),
    ensures
        rs_rule(pw(fin), fl_rule(st, r, pfx, at).1) == r,
{
    let st1 = fl_ability(st, r.body, pfx, at).0;
    let aid = fl_ability(st, r.body, pfx, at).1;
    let post = fl_rule(st, r, pfx, at).0;
    let rid = fl_rule(st, r, pfx, at).1;
    let rec = post.rules.last();
    let p = st.rules.len() as int;
    lemma_prefix_index(post.rules, fin.rules, p);
    lemma_find_at(fin.rules, rule_key(), rid, p);
    assert(find_rule(fin.rules, rid) == Option::Some(rec));
    // The rule's body ability resolves back to the body blocks.
    lemma_fl_ability_extends(st, r.body, pfx, at);
    lemma_prefix_refl(st1.scenes);
    lemma_prefix_refl(st1.objects);
    lemma_prefix_refl(st1.abilities);
    lemma_prefix_push(st1.rules, rec);
    lemma_st_prefix_trans(st1, post, fin);
    lemma_rt_ability(st, r.body, pfx, at, fin);
    let got = rs_rule(pw(fin), rid);
    assert(got.body =~= r.body);
    let b = r.event->0;
    assert(got.event == Option::<BlockT>::Some(BlockT { tag: rule_out_tag(r) }));
    assert(BlockT { tag: rule_out_tag(r) } =~= b);
    assert(got =~= r);
}

proof fn lemma_rt_rules(st: FlatSt, rs: Seq<RuleT>, pfx: Seq<char>, at: int, fin: FlatSt)
    requires
        forall|k: int| 0 <= k < rs.len() ==> (#[trigger] rs[k]).event is Some,
        st_prefix(fl_rules(st, rs, pfx, at).0, fin),
        ids_distinct(fin.rules, rule_key()),
        ids_distinct(fin.abilities, abil_key()),
    ensures
        fl_rules(st, rs, pfx, at).1.len() == rs.len(),
        forall|j: int| 0 <= j < rs.len() ==> rs_rule(
            pw(fin),
            #[trigger] fl_rules(st, rs, pfx, at).1[j],
        ) == rs[j],
    decreases rs.len(),
{
    lemma_fl_rules_c(st, rs, pfx, at);
    if rs.len() > 0 {
        let prev = fl_rules(st, rs.drop_last(), pfx, at);
        let step = fl_rule(prev.0, rs.last(), pfx, at);
        lemma_fl_rule_extends(prev.0, rs.last(), pfx, at);
        lemma_st_prefix_trans(prev.0, step.0, fin);
        lemma_fl_rules_c(st, rs.drop_last(), pfx, at);
        lemma_rt_rules(st, rs.drop_last(), pfx, at, fin);
        lemma_rt_rule(prev.0, rs.last(), pfx, at, fin);
        assert forall|j: int| 0 <= j < rs.len() implies rs_rule(
            pw(fin),
            #[trigger] fl_rules(st, rs, pfx, at).1[j],
        ) == rs[j] by {
            if j < rs.len() - 1 {
                assert(fl_rules(st, rs, pfx, at).1[j] == prev.1[j]);
                assert(rs.drop_last()[j] == rs[j]);
            } else {
                assert(fl_rules(st, rs, pfx, at).1[j] == step.1);
            }
        }
    }
}

proof fn lemma_rt_object(st: FlatSt, o: ObjT, pfx: Seq<char>, at: int, fin: FlatSt)
    requires
        wf_obj(o),
        obj_evented(o),
        st_prefix(fl_object(st, o, pfx, at).0, fin),
        ids_distinct(fin.objects, obj_key()),
        ids_distinct(fin.rules, rule_key()),
        ids_distinct(fin.abilities, abil_key()),
    ensures
        rs_object(pw(fin), fl_object(st, o, pfx, at).1) == o,
{
    let st1 = fl_ability(st, o.pre, pfx, at).0;
    let st2 = fl_rules(st1, o.rules, pfx, at).0;
    let rids = fl_rules(st1, o.rules, pfx, at).1;
    let post = fl_object(st, o, pfx, at).0;
    let oid = fl_object(st, o, pfx, at).1;
    let rec = post.objects.last();
    lemma_fl_rules_extends(st1, o.rules, pfx, at);
    // The object record sits where it was appended.
    lemma_fl_rules_frame(st1, o.rules, pfx, at);
    assert(st2.objects == st.objects);
    let p = st.objects.len() as int;
    lemma_prefix_index(post.objects, fin.objects, p);
    lemma_find_at(fin.objects, obj_key(), oid, p);
    assert(find_obj(fin.objects, oid) == Option::Some(rec));
    // Pre-game blocks resolve back through the pre-game ability.
    lemma_prefix_refl(st1.scenes);
    lemma_prefix_refl(st1.objects);
    lemma_prefix_refl(st1.abilities);
    lemma_prefix_push(st2.objects, rec);
    lemma_prefix_refl(st2.scenes);
    lemma_prefix_refl(st2.rules);
    lemma_prefix_refl(st2.abilities);
    assert(st_prefix(st2, post));
    lemma_st_prefix_trans(st2, post, fin);
    lemma_st_prefix_trans(st1, st2, fin);
    lemma_rt_ability(st, o.pre, pfx, at, fin);
    // The rules resolve back one by one.
    lemma_rt_rules(st1, o.rules, pfx, at, fin);
    let got = rs_object_record(pw(fin), rec);
    assert(got.pre =~= o.pre);
    assert forall|j: int| 0 <= j < o.rules.len() implies rs_rule_list(pw(fin), rec.rules)[j]
        == o.rules[j] by {
        assert(rec.rules[j] == rids[j]);
    }
    assert(got.rules =~= o.rules);
    assert(got.otype =~= o.otype);
    assert(got =~= o);
}

proof fn lemma_rt_objects(st: FlatSt, os: Seq<ObjT>, pfx: Seq<char>, at: int, fin: FlatSt)
    requires
        forall|k: int| 0 <= k < os.len() ==> wf_obj(#[trigger] os[k]) && obj_evented(os[k]),
        st_prefix(fl_objects(st, os, pfx, at).0, fin),
        ids_distinct(fin.objects, obj_key()),
        ids_distinct(fin.rules, rule_key()),
        ids_distinct(fin.abilities, abil_key()),
    ensures
        fl_objects(st, os, pfx, at).1.len() == os.len(),
        forall|j: int| 0 <= j < os.len() ==> rs_object(
            pw(fin),
            #[trigger] fl_objects(st, os, pfx, at).1[j],
        ) == os[j],
    decreases os.len(),
{
    crate::flatten::lemma_fl_objects_c(st, os, pfx, at);
    if os.len() > 0 {
        let prev = fl_objects(st, os.drop_last(), pfx, at);
        let step = fl_object(prev.0, os.last(), pfx, at);
        lemma_fl_object_extends(prev.0, os.last(), pfx, at);
        lemma_st_prefix_trans(prev.0, step.0, fin);
        crate::flatten::lemma_fl_objects_c(st, os.drop_last(), pfx, at);
        lemma_rt_objects(st, os.drop_last(), pfx, at, fin);
        lemma_rt_object(prev.0, os.last(), pfx, at, fin);
        assert forall|j: int| 0 <= j < os.len() implies rs_object(
            pw(fin),
            #[trigger] fl_objects(st, os, pfx, at).1[j],
        ) == os[j] by {
            if j < os.len() - 1 {
                assert(fl_objects(st, os, pfx, at).1[j] == prev.1[j]);
                assert(os.drop_last()[j] == os[j]);
            } else {
                assert(fl_objects(st, os, pfx, at).1[j] == step.1);
            }
        }
    }
}

proof fn lemma_rt_scene(st: FlatSt, s: SceneT, pfx: Seq<char>, at: int, fin: FlatSt)
    requires
        wf_scene(s),
        scene_evented(s),
        st_prefix(fl_scene(st, s, pfx, at), fin),
        ids_distinct(fin.objects, obj_key()),
        ids_distinct(fin.rules, rule_key()),
        ids_distinct(fin.abilities, abil_key()),
    ensures
        rs_scene(pw(fin), fl_scene(st, s, pfx, at).scenes.last()) == s,
{
    let st1 = fl_objects(st, s.objects, pfx, at).0;
    let oids = fl_objects(st, s.objects, pfx, at).1;
    let post = fl_scene(st, s, pfx, at);
    let rec = post.scenes.last();
    lemma_prefix_refl(st1.objects);
    lemma_prefix_refl(st1.rules);
    lemma_prefix_refl(st1.abilities);
    lemma_prefix_push(st1.scenes, rec);
    assert(st_prefix(st1, post));
    lemma_st_prefix_trans(st1, post, fin);
    lemma_rt_objects(st, s.objects, pfx, at, fin);
    let got = rs_scene(pw(fin), rec);
    assert forall|j: int| 0 <= j < s.objects.len() implies got.objects[j] == s.objects[j] by {
        assert(rec.objects[j] == oids[j]);
        assert(got.objects[j] == rs_object(pw(fin), oids[j]));
    }
    assert(got.objects =~= s.objects);
    assert(got =~= s);
}

proof fn lemma_rt_scenes(st: FlatSt, ss: Seq<SceneT>, pfx: Seq<char>, at: int, fin: FlatSt)
    requires
        forall|k: int| 0 <= k < ss.len() ==> wf_scene(#[trigger] ss[k]) && scene_evented(ss[k]),
        st_prefix(fl_scenes(st, ss, pfx, at), fin),
        ids_distinct(fin.objects, obj_key()),
        ids_distinct(fin.rules, rule_key()),
        ids_distinct(fin.abilities, abil_key()),
    ensures
        fl_scenes(st, ss, pfx, at).scenes.len() == st.scenes.len() + ss.len(),
        forall|j: int| 0 <= j < ss.len() ==> rs_scene(
            pw(fin),
            #[trigger] fl_scenes(st, ss, pfx, at).scenes[st.scenes.len() + j],
        ) == ss[j],
    decreases ss.len(),
{
    if ss.len() > 0 {
        let prev = fl_scenes(st, ss.drop_last(), pfx, at);
        let post = fl_scenes(st, ss, pfx, at);
        lemma_fl_scene_extends(prev, ss.last(), pfx, at);
        lemma_st_prefix_trans(prev, post, fin);
        lemma_rt_scenes(st, ss.drop_last(), pfx, at, fin);
        lemma_rt_scene(prev, ss.last(), pfx, at, fin);
        let st1 = fl_objects(prev, ss.last().objects, pfx, at).0;
        lemma_fl_objects_frame(prev, ss.last().objects, pfx, at);
        assert(st1.scenes == prev.scenes);
        assert forall|j: int| 0 <= j < ss.len() implies rs_scene(
            pw(fin),
            #[trigger] post.scenes[st.scenes.len() + j],
        ) == ss[j] by {
            if j < ss.len() - 1 {
                assert(post.scenes[st.scenes.len() + j] == prev.scenes[st.scenes.len() + j]);
                assert(ss.drop_last()[j] == ss[j]);
            } else {
                assert(post.scenes[st.scenes.len() + j] == post.scenes.last());
            }
        }
    }
}

/// Round-trip shape preservation, and more: resolving a freshly flattened
/// tree restores the tree exactly — same scenes, objects, rules, blocks,
/// tags and attributes — for any generator prefix, counter start and
/// timestamp.  The two hypotheses mark the inputs on which the wire form
/// cannot carry the tree verbatim: numeric-as-string attributes that do
/// not hold numeric text resolve to defaults, and a rule with no trigger
/// event is written with the fixed no-trigger tag, which resolves to an
/// event carrying that tag.  Wire identifiers and container-level fields
/// are freshly minted and fixed on every save, so nothing is stated of
/// them.
pub proof fn lemma_round_trip(t: ProjT, pfx: Seq<char>, c0: nat, at: int)
    requires
        wf_tree(t),
        all_rules_evented(t),
    ensures
        resolve_spec(flatten_spec(t, pfx, c0, at)) == t,
{
    let st0 = empty_st(c0);
    let fin = fl_scenes(st0, t.scenes, pfx, at);
    lemma_fl_scenes_ok(st0, t.scenes, pfx, at);
    lemma_st_prefix_refl(fin);
    lemma_rt_scenes(st0, t.scenes, pfx, at, fin);
    let wire = flatten_spec(t, pfx, c0, at);
    assert(wire == pw(fin));
    let back = resolve_spec(wire);
    assert forall|k: int| 0 <= k < t.scenes.len() implies back.scenes[k] == t.scenes[k] by {
        assert(back.scenes[k] == rs_scene(wire, fin.scenes[k]));
        assert(fin.scenes[0 + k] == fin.scenes[k]);
    }
    assert(back.scenes =~= t.scenes);
    assert(back =~= t);
}

/// Round-trip shape preservation for loaded documents, as callers meet
/// it: a tree resolved from any wire container is well formed, so loading
/// what was saved from it restores it exactly, provided none of its rules
/// is a placeholder (a rule resolved from a dangling rule identifier has
/// no trigger event, and the wire form writes the fixed no-trigger tag in
/// that slot).
pub proof fn lemma_parse_save_parse(p: ProjW, pfx: Seq<char>, c0: nat, at: int)
    requires
        all_rules_evented(resolve_spec(p)),
    ensures
        resolve_spec(flatten_spec(resolve_spec(p), pfx, c0, at)) == resolve_spec(p),
{
    crate::resolve::lemma_resolve_wf(p);
    lemma_round_trip(resolve_spec(p), pfx, c0, at);
}

/// The wire invariant of a saved document: within each of its four
/// collections — scenes, objects, rules, abilities — the freshly minted
/// identifiers are pairwise distinct.
pub proof fn lemma_flatten_ids_distinct(t: ProjT, pfx: Seq<char>, c0: nat, at: int)
    ensures
        ids_distinct(flatten_spec(t, pfx, c0, at).scenes, scene_key()),
        ids_distinct(flatten_spec(t, pfx, c0, at).objects, obj_key()),
        ids_distinct(flatten_spec(t, pfx, c0, at).rules, rule_key()),
        ids_distinct(flatten_spec(t, pfx, c0, at).abilities, abil_key()),
{
    lemma_fl_scenes_ok(empty_st(c0), t.scenes, pfx, at);
}

// ---------------------------------------------------------------------
// Placeholders and fallbacks.
// ---------------------------------------------------------------------

/// Missing-reference placeholder: a scene entry whose object identifier
/// has no record resolves to exactly the documented placeholder object,
/// at its position in the scene's list, and the list keeps its length.
pub proof fn lemma_missing_object_placeholder(p: ProjW, s: SceneW, j: int)
    requires
        0 <= j < s.objects.len(),
        find_obj(p.objects, s.objects[j]) is None,
    ensures
        rs_scene(p, s).objects.len() == s.objects.len(),
        rs_scene(p, s).objects[j] == placeholder_obj(),
{
    assert(rs_scene(p, s).objects[j] == rs_object(p, s.objects[j]));
}

/// Numeric fallback: a non-numeric position string resolves to the
/// documented default, and a type tag that could not be read as a number
/// resolves to the sentinel tag — on a block, and on a rule's synthesized
/// trigger event.
pub proof fn lemma_numeric_fallback(p: ProjW, o: ObjW, b: BlockW, r: RuleW)
    ensures
        !is_num(o.x_position) ==> rs_object_record(p, o).x == "0"@,
        b.tag is None ==> rs_block(b).tag == SENTINEL_TAG as int,
        r.tag is None ==> rs_rule_record(p, r).event == Option::Some(
            BlockT { tag: SENTINEL_TAG as int },
        ),
{
}

// ---------------------------------------------------------------------
// Rewrites survive a save.
// ---------------------------------------------------------------------

/// A whole-tree rewrite leaves the tree well formed: it changes only
/// block tags.
pub proof fn lemma_retag_wf(t: ProjT, from: int, to: int)
    requires
        wf_tree(t),
        all_rules_evented(t),
    ensures
        wf_tree(retag_spec(t, from, to)),
        all_rules_evented(retag_spec(t, from, to)),
{
    let r = retag_spec(t, from, to);
    assert forall|i: int| 0 <= i < r.scenes.len() implies wf_scene(#[trigger] r.scenes[i])
        && scene_evented(r.scenes[i]) by {
        assert(r.scenes[i] == retag_scene(t.scenes[i], from, to));
        let s = t.scenes[i];
        let rsc = retag_scene(s, from, to);
        assert forall|j: int| 0 <= j < rsc.objects.len() implies wf_obj(#[trigger] rsc.objects[j])
            && obj_evented(rsc.objects[j]) by {
            assert(rsc.objects[j] == retag_obj(s.objects[j], from, to));
            assert(wf_obj(s.objects[j]));
            assert(obj_evented(s.objects[j]));
            let ro = retag_obj(s.objects[j], from, to);
            assert forall|k: int| 0 <= k < ro.rules.len() implies (#[trigger] ro.rules[k]).event is Some by {
                assert(ro.rules[k] == retag_rule(s.objects[j].rules[k], from, to));
                assert(s.objects[j].rules[k].event is Some);
            }
        }
    }
}

/// Traversal mutation is visible in a subsequent save: rewriting every
/// block of one tag and then saving yields a document that resolves to
/// exactly the rewritten tree.
pub proof fn lemma_rewrite_then_save(t: ProjT, from: int, to: int, pfx: Seq<char>, c0: nat, at: int)
    requires
        wf_tree(t),
        all_rules_evented(t),
    ensures
        resolve_spec(flatten_spec(retag_spec(t, from, to), pfx, c0, at)) == retag_spec(t, from, to),
{
    lemma_retag_wf(t, from, to);
    lemma_round_trip(retag_spec(t, from, to), pfx, c0, at);
}

} // verus!
