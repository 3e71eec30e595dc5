//! The wire schema: flat, relationally indexed records mirroring the
//! project JSON document, plus the identifier index used to look a record
//! up by its identifier.
//!
//! Numeric type tags travel as JSON numbers; a tag that is not an integer
//! is carried as `None` and resolved to a documented fallback while
//! loading.  The geometry fields (`width`, `height`, position, scale,
//! rotation) travel as JSON strings holding numeric text, exactly as the
//! persisted format requires.

use vstd::prelude::*;

use crate::outside::{fresh_uuid, now_secs};

verus! {

/// Tag written wherever a numeric type tag could not be understood.
pub const SENTINEL_TAG: i64 = -10140001;

/// Tag written for a rule with no trigger event.
pub const NO_EVENT_TAG: i64 = 22;

// ---------------------------------------------------------------------
// Mathematical models of the wire records.
// ---------------------------------------------------------------------

#[verifier::ext_equal]
pub ghost struct BlockW {
    pub tag: Option<int>,
    pub description: Seq<char>,
    pub block_class: Seq<char>,
}

#[verifier::ext_equal]
pub ghost struct AbilW {
    pub id: Seq<char>,
    pub name: Option<Seq<char>>,
    pub created_at: int,
    pub blocks: Seq<BlockW>,
}

#[verifier::ext_equal]
pub ghost struct RuleW {
    pub id: Seq<char>,
    pub tag: Option<int>,
    pub object_id: Option<Seq<char>>,
    pub ability_id: Seq<char>,
}

#[verifier::ext_equal]
pub ghost struct ObjW {
    pub id: Seq<char>,
    pub tag: Option<int>,
    pub filename: Seq<char>,
    pub width: Seq<char>,
    pub height: Seq<char>,
    pub name: Seq<char>,
    pub rules: Seq<Seq<char>>,
    pub x_position: Seq<char>,
    pub y_position: Seq<char>,
    pub resize_scale: Seq<char>,
    pub rotation: Seq<char>,
    pub text: Option<Seq<char>>,
    pub ability_id: Seq<char>,
}

#[verifier::ext_equal]
pub ghost struct SceneW {
    pub name: Seq<char>,
    pub id: Seq<char>,
    pub objects: Seq<Seq<char>>,
}

#[verifier::ext_equal]
pub ghost struct StageW {
    pub width: int,
    pub height: int,
}

#[verifier::ext_equal]
pub ghost struct ProjW {
    pub scenes: Seq<SceneW>,
    pub stage_size: StageW,
    pub player_version: Seq<char>,
    pub version: int,
    pub abilities: Seq<AbilW>,
    pub font_size: int,
    pub objects: Seq<ObjW>,
    pub requires_beta_editor: bool,
    pub rules: Seq<RuleW>,
}

pub open spec fn views_of(v: Seq<String>) -> Seq<Seq<char>> {
    v.map_values(|s: String| s@)
}

pub open spec fn opt_view(o: Option<String>) -> Option<Seq<char>> {
    match o {
        Option::None => Option::None,
        Option::Some(s) => Option::Some(s@),
    }
}

// ---------------------------------------------------------------------
// The records.
// ---------------------------------------------------------------------

pub struct LowLevelBlock {
    pub hs_type: Option<i64>,
    pub description: String,
    pub block_class: String,
}

impl View for LowLevelBlock {
    type V = BlockW;

    open spec fn view(&self) -> BlockW {
        BlockW {
            tag: match self.hs_type {
                Option::None => Option::None,
                Option::Some(t) => Option::Some(t as int),
            },
            description: self.description@,
            block_class: self.block_class@,
        }
    }
}

pub struct LowLevelAbility {
    pub ability_id: String,
    pub name: Option<String>,
    pub created_at: i64,
    pub blocks: Vec<LowLevelBlock>,
}

impl View for LowLevelAbility {
    type V = AbilW;

    open spec fn view(&self) -> AbilW {
        AbilW {
            id: self.ability_id@,
            name: opt_view(self.name),
            created_at: self.created_at as int,
            blocks: self.blocks@.map_values(|b: LowLevelBlock| b@),
        }
    }
}

pub struct LowLevelRule {
    pub id: String,
    pub rule_block_type: Option<i64>,
    pub object_id: Option<String>,
    pub ability_id: String,
}

impl View for LowLevelRule {
    type V = RuleW;

    open spec fn view(&self) -> RuleW {
        RuleW {
            id: self.id@,
            tag: match self.rule_block_type {
                Option::None => Option::None,
                Option::Some(t) => Option::Some(t as int),
            },
            object_id: opt_view(self.object_id),
            ability_id: self.ability_id@,
        }
    }
}

pub struct LowLevelObject {
    pub object_id: String,
    pub hs_type: Option<i64>,
    pub filename: String,
    pub width: String,
    pub height: String,
    pub name: String,
    pub rules: Vec<String>,
    pub x_position: String,
    pub y_position: String,
    pub resize_scale: String,
    pub rotation: String,
    pub text: Option<String>,
    pub ability_id: String,
}

impl View for LowLevelObject {
    type V = ObjW;

    open spec fn view(&self) -> ObjW {
        ObjW {
            id: self.object_id@,
            tag: match self.hs_type {
                Option::None => Option::None,
                Option::Some(t) => Option::Some(t as int),
            },
            filename: self.filename@,
            width: self.width@,
            height: self.height@,
            name: self.name@,
            rules: views_of(self.rules@),
            x_position: self.x_position@,
            y_position: self.y_position@,
            resize_scale: self.resize_scale@,
            rotation: self.rotation@,
            text: opt_view(self.text),
            ability_id: self.ability_id@,
        }
    }
}

pub struct LowLevelScene {
    pub name: String,
    pub id: String,
    pub objects: Vec<String>,
}

impl View for LowLevelScene {
    type V = SceneW;

    open spec fn view(&self) -> SceneW {
        SceneW { name: self.name@, id: self.id@, objects: views_of(self.objects@) }
    }
}

pub struct LowLevelStageSize {
    pub width: i64,
    pub height: i64,
}

impl View for LowLevelStageSize {
    type V = StageW;

    open spec fn view(&self) -> StageW {
        StageW { width: self.width as int, height: self.height as int }
    }
}

pub struct LowLevelProject {
    pub scenes: Vec<LowLevelScene>,
    pub stage_size: LowLevelStageSize,
    pub player_version: String,
    pub version: i64,
    pub abilities: Vec<LowLevelAbility>,
    pub font_size: i64,
    pub objects: Vec<LowLevelObject>,
    pub requires_beta_editor: bool,
    pub rules: Vec<LowLevelRule>,
}

impl View for LowLevelProject {
    type V = ProjW;

    open spec fn view(&self) -> ProjW {
        ProjW {
            scenes: self.scenes@.map_values(|s: LowLevelScene| s@),
            stage_size: self.stage_size@,
            player_version: self.player_version@,
            version: self.version as int,
            abilities: self.abilities@.map_values(|a: LowLevelAbility| a@),
            font_size: self.font_size as int,
            objects: self.objects@.map_values(|o: LowLevelObject| o@),
            requires_beta_editor: self.requires_beta_editor,
            rules: self.rules@.map_values(|r: LowLevelRule| r@),
        }
    }
}

// ---------------------------------------------------------------------
// The identifier index: first record whose identifier matches.
// ---------------------------------------------------------------------

pub open spec fn find_first<T>(s: Seq<T>, key: spec_fn(T) -> Seq<char>, id: Seq<char>) -> Option<
    T,
>
    decreases s.len(),
{
    if s.len() == 0 {
        Option::None
    } else if key(s[0]) == id {
        Option::Some(s[0])
    } else {
        find_first(s.skip(1), key, id)
    }
}

pub open spec fn obj_key() -> spec_fn(ObjW) -> Seq<char> {
    |o: ObjW| o.id
}

pub open spec fn rule_key() -> spec_fn(RuleW) -> Seq<char> {
    |r: RuleW| r.id
}

pub open spec fn abil_key() -> spec_fn(AbilW) -> Seq<char> {
    |a: AbilW| a.id
}

pub open spec fn scene_key() -> spec_fn(SceneW) -> Seq<char> {
    |s: SceneW| s.id
}

pub open spec fn find_obj(objs: Seq<ObjW>, id: Seq<char>) -> Option<ObjW> {
    find_first(objs, obj_key(), id)
}

pub open spec fn find_rule(rules: Seq<RuleW>, id: Seq<char>) -> Option<RuleW> {
    find_first(rules, rule_key(), id)
}

pub open spec fn find_abil(abils: Seq<AbilW>, id: Seq<char>) -> Option<AbilW> {
    find_first(abils, abil_key(), id)
}

/// A match at `p` with no earlier match is the first match.
pub proof fn lemma_find_first_present<T>(
    s: Seq<T>,
    key: spec_fn(T) -> Seq<char>,
    id: Seq<char>,
    p: int,
)
    requires
        0 <= p < s.len(),
        key(s[p]) == id,
        forall|q: int| 0 <= q < p ==> key(#[trigger] s[q]) != id,
    ensures
        find_first(s, key, id) == Option::Some(s[p]),
    decreases p,
{
    if p == 0 {
    } else {
        assert(key(s[0]) != id);
        assert forall|q: int| 0 <= q < p - 1 implies key(#[trigger] s.skip(1)[q]) != id by {
            assert(s.skip(1)[q] == s[q + 1]);
        }
        assert(s.skip(1)[p - 1] == s[p]);
        lemma_find_first_present(s.skip(1), key, id, p - 1);
    }
}

/// No match anywhere means no first match.
pub proof fn lemma_find_first_absent<T>(s: Seq<T>, key: spec_fn(T) -> Seq<char>, id: Seq<char>)
    requires
        forall|q: int| 0 <= q < s.len() ==> key(#[trigger] s[q]) != id,
    ensures
        find_first(s, key, id) is None,
    decreases s.len(),
{
    if s.len() > 0 {
        assert forall|q: int| 0 <= q < s.len() - 1 implies key(#[trigger] s.skip(1)[q]) != id by {
            assert(s.skip(1)[q] == s[q + 1]);
        }
        lemma_find_first_absent(s.skip(1), key, id);
    }
}

impl LowLevelProject {
    /// First object record carrying `object_id`, if any.
    pub fn object_with_id(&self, object_id: &String) -> (r: Option<&LowLevelObject>)
        ensures
            match r {
                Option::None => find_obj(self@.objects, object_id@) is None,
                Option::Some(o) => find_obj(self@.objects, object_id@) == Option::Some(o@),
            },
    {
        let mut i: usize = 0;
        while i < self.objects.len()
            invariant
                i <= self.objects.len(),
                forall|q: int| 0 <= q < i ==> #[trigger] self@.objects[q].id != object_id@,
            decreases self.objects.len() - i,
        {
            if self.objects[i].object_id == *object_id {
                proof {
                    assert(self@.objects[i as int] == self.objects@[i as int]@);
                    lemma_find_first_present(self@.objects, obj_key(), object_id@, i as int);
                }
                return Some(&self.objects[i]);
            }
            proof {
                assert(self@.objects[i as int] == self.objects@[i as int]@);
            }
            i = i + 1;
        }
        proof {
            lemma_find_first_absent(self@.objects, obj_key(), object_id@);
        }
        None
    }

    /// First rule record carrying `rule_id`, if any.
    pub fn rule_with_id(&self, rule_id: &String) -> (r: Option<&LowLevelRule>)
        ensures
            match r {
                Option::None => find_rule(self@.rules, rule_id@) is None,
                Option::Some(ru) => find_rule(self@.rules, rule_id@) == Option::Some(ru@),
            },
    {
        let mut i: usize = 0;
        while i < self.rules.len()
            invariant
                i <= self.rules.len(),
                forall|q: int| 0 <= q < i ==> #[trigger] self@.rules[q].id != rule_id@,
            decreases self.rules.len() - i,
        {
            if self.rules[i].id == *rule_id {
                proof {
                    assert(self@.rules[i as int] == self.rules@[i as int]@);
                    lemma_find_first_present(self@.rules, rule_key(), rule_id@, i as int);
                }
                return Some(&self.rules[i]);
            }
            proof {
                assert(self@.rules[i as int] == self.rules@[i as int]@);
            }
            i = i + 1;
        }
        proof {
            lemma_find_first_absent(self@.rules, rule_key(), rule_id@);
        }
        None
    }

    /// First ability record carrying `ability_id`, if any.
    pub fn ability_with_id(&self, ability_id: &String) -> (r: Option<&LowLevelAbility>)
        ensures
            match r {
                Option::None => find_abil(self@.abilities, ability_id@) is None,
                Option::Some(a) => find_abil(self@.abilities, ability_id@) == Option::Some(a@),
            },
    {
        let mut i: usize = 0;
        while i < self.abilities.len()
            invariant
                i <= self.abilities.len(),
                forall|q: int| 0 <= q < i ==> #[trigger] self@.abilities[q].id != ability_id@,
            decreases self.abilities.len() - i,
        {
            if self.abilities[i].ability_id == *ability_id {
                proof {
                    assert(self@.abilities[i as int] == self.abilities@[i as int]@);
                    lemma_find_first_present(self@.abilities, abil_key(), ability_id@, i as int);
                }
                return Some(&self.abilities[i]);
            }
            proof {
                assert(self@.abilities[i as int] == self.abilities@[i as int]@);
            }
            i = i + 1;
        }
        proof {
            lemma_find_first_absent(self@.abilities, abil_key(), ability_id@);
        }
        None
    }

    /// An empty container with the given container-level fields.
    pub fn new(
        stage_size: LowLevelStageSize,
        player_version: String,
        version: i64,
        font_size: i64,
        requires_beta_editor: bool,
    ) -> (r: Self)
        ensures
            r@.scenes =~= Seq::<SceneW>::empty(),
            r@.abilities =~= Seq::<AbilW>::empty(),
            r@.objects =~= Seq::<ObjW>::empty(),
            r@.rules =~= Seq::<RuleW>::empty(),
            r@.stage_size == stage_size@,
            r@.player_version == player_version@,
            r@.version == version as int,
            r@.font_size == font_size as int,
            r@.requires_beta_editor == requires_beta_editor,
    {
        LowLevelProject {
            scenes: Vec::new(),
            stage_size,
            player_version,
            version,
            abilities: Vec::new(),
            font_size,
            objects: Vec::new(),
            requires_beta_editor,
            rules: Vec::new(),
        }
    }
}

impl LowLevelScene {
    /// A scene record under a freshly minted random identifier.
    pub fn new(name: String, objects: Vec<String>) -> (r: Self)
        ensures
            r@.name == name@,
            r@.objects == views_of(objects@),
            r@.id.len() == 36,
    {
        LowLevelScene { name, id: fresh_uuid(), objects }
    }
}

impl LowLevelAbility {
    /// An empty ability record under a freshly minted random identifier,
    /// stamped with the current clock reading.
    pub fn new() -> (r: Self)
        ensures
            r@.name is None,
            r@.blocks =~= Seq::<BlockW>::empty(),
            r@.created_at >= 0,
            r@.id.len() == 36,
    {
        LowLevelAbility { ability_id: fresh_uuid(), name: None, created_at: now_secs(), blocks: Vec::new() }
    }
}

impl LowLevelObject {
    /// An object record under a freshly minted random identifier.
    pub fn new(
        hs_type: i64,
        filename: String,
        width: String,
        height: String,
        name: String,
        rules: Vec<String>,
        x_position: String,
        y_position: String,
        resize_scale: String,
        rotation: String,
        ability_id: String,
        text: Option<String>,
    ) -> (r: Self)
        ensures
            r@.tag == Option::Some(hs_type as int),
            r@.filename == filename@,
            r@.width == width@,
            r@.height == height@,
            r@.name == name@,
            r@.rules == views_of(rules@),
            r@.x_position == x_position@,
            r@.y_position == y_position@,
            r@.resize_scale == resize_scale@,
            r@.rotation == rotation@,
            r@.text == opt_view(text),
            r@.ability_id == ability_id@,
            r@.id.len() == 36,
    {
        LowLevelObject {
            object_id: fresh_uuid(),
            hs_type: Some(hs_type),
            filename,
            width,
            height,
            name,
            rules,
            x_position,
            y_position,
            resize_scale,
            rotation,
            text,
            ability_id,
        }
    }
}

impl LowLevelRule {
    /// A rule record under a freshly minted random identifier.
    pub fn new(hs_type: i64, ability_id: String) -> (r: Self)
        ensures
            r@.tag == Option::Some(hs_type as int),
            r@.object_id is None,
            r@.ability_id == ability_id@,
            r@.id.len() == 36,
    {
        LowLevelRule { id: fresh_uuid(), rule_block_type: Some(hs_type), object_id: None, ability_id }
    }
}

} // verus!
