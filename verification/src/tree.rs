//! The owned tree model: no identifiers, structure encodes the
//! relationships.  A rule's trigger-event slot is filled exactly when the
//! rule was resolved from a wire record; a freshly constructed rule has no
//! event and no body.

use vstd::prelude::*;

verus! {

// ---------------------------------------------------------------------
// Mathematical models.
// ---------------------------------------------------------------------

#[verifier::ext_equal]
pub ghost struct BlockT {
    pub tag: int,
}

#[verifier::ext_equal]
pub ghost struct OTypeT {
    pub tag: int,
    pub filename: Seq<char>,
    pub width: Seq<char>,
    pub height: Seq<char>,
}

#[verifier::ext_equal]
pub ghost struct RuleT {
    pub event: Option<BlockT>,
    pub body: Seq<BlockT>,
}

#[verifier::ext_equal]
pub ghost struct ObjT {
    pub pre: Seq<BlockT>,
    pub rules: Seq<RuleT>,
    pub otype: OTypeT,
    pub x: Seq<char>,
    pub y: Seq<char>,
    pub scale: Seq<char>,
    pub rot: Seq<char>,
    pub name: Seq<char>,
}

#[verifier::ext_equal]
pub ghost struct SceneT {
    pub name: Seq<char>,
    pub objects: Seq<ObjT>,
}

#[verifier::ext_equal]
pub ghost struct ProjT {
    pub scenes: Seq<SceneT>,
}

// ---------------------------------------------------------------------
// The owned types.
// ---------------------------------------------------------------------

/// The block-type tag: today a single variant carrying an opaque numeric
/// identifier; dispatch sites match exhaustively so that known variants
/// can be added as a compile-time-checked change.
pub enum BlockType {
    ArbitraryID(i64),
}

impl View for BlockType {
    type V = int;

    open spec fn view(&self) -> int {
        match *self {
            BlockType::ArbitraryID(t) => t as int,
        }
    }
}

/// The smallest executable unit, tagged by a type identifier.
pub struct Block {
    pub hs_type: BlockType,
}

impl View for Block {
    type V = BlockT;

    open spec fn view(&self) -> BlockT {
        BlockT { tag: self.hs_type@ }
    }
}

/// Presentation attributes of an object.
pub struct ObjectType {
    pub hs_type: i64,
    pub filename: String,
    pub width: String,
    pub height: String,
}

impl View for ObjectType {
    type V = OTypeT;

    open spec fn view(&self) -> OTypeT {
        OTypeT {
            tag: self.hs_type as int,
            filename: self.filename@,
            width: self.width@,
            height: self.height@,
        }
    }
}

/// An event handler: an optional trigger-event block plus a body.
pub struct Rule {
    pub event: Option<Block>,
    pub blocks: Vec<Block>,
}

impl View for Rule {
    type V = RuleT;

    open spec fn view(&self) -> RuleT {
        RuleT {
            event: match self.event {
                Option::None => Option::None,
                Option::Some(b) => Option::Some(b@),
            },
            body: self.blocks@.map_values(|b: Block| b@),
        }
    }
}

/// An actor: its pre-game blocks, its rules, and its attributes.
pub struct Object {
    pub before_game_starts_blocks: Vec<Block>,
    pub rules: Vec<Rule>,
    pub hs_type: ObjectType,
    pub x_position: String,
    pub y_position: String,
    pub resize_scale: String,
    pub rotation: String,
    pub name: String,
}

impl View for Object {
    type V = ObjT;

    open spec fn view(&self) -> ObjT {
        ObjT {
            pre: self.before_game_starts_blocks@.map_values(|b: Block| b@),
            rules: self.rules@.map_values(|r: Rule| r@),
            otype: self.hs_type@,
            x: self.x_position@,
            y: self.y_position@,
            scale: self.resize_scale@,
            rot: self.rotation@,
            name: self.name@,
        }
    }
}

/// A screen or level: an ordered list of objects.
pub struct Scene {
    pub objects: Vec<Object>,
    pub name: String,
}

impl View for Scene {
    type V = SceneT;

    open spec fn view(&self) -> SceneT {
        SceneT { name: self.name@, objects: self.objects@.map_values(|o: Object| o@) }
    }
}

/// The root of the owned tree.
pub struct Project {
    pub scenes: Vec<Scene>,
}

impl View for Project {
    type V = ProjT;

    open spec fn view(&self) -> ProjT {
        ProjT { scenes: self.scenes@.map_values(|s: Scene| s@) }
    }
}

// ---------------------------------------------------------------------
// Constructors.
// ---------------------------------------------------------------------

/// The model of a freshly constructed object: no blocks, no rules, origin
/// position, unit scale, zero rotation.
pub open spec fn new_obj_t(otype: OTypeT, name: Seq<char>) -> ObjT {
    ObjT {
        pre: Seq::empty(),
        rules: Seq::empty(),
        otype,
        x: "0"@,
        y: "0"@,
        scale: "1"@,
        rot: "0"@,
        name,
    }
}

impl Object {
    /// A fresh object with no blocks and no rules, at the origin, at unit
    /// scale, unrotated.
    pub fn new(hs_type: ObjectType, name: String) -> (r: Self)
        ensures
            r@ =~= new_obj_t(hs_type@, name@),
    {
        Object {
            before_game_starts_blocks: Vec::new(),
            rules: Vec::new(),
            hs_type,
            x_position: String::from_str("0"),
            y_position: String::from_str("0"),
            resize_scale: String::from_str("1"),
            rotation: String::from_str("0"),
            name,
        }
    }
}

impl Rule {
    /// A fresh rule: no trigger event, no body.
    pub fn new() -> (r: Self)
        ensures
            r@.event is None,
            r@.body =~= Seq::<BlockT>::empty(),
    {
        Rule { event: None, blocks: Vec::new() }
    }
}

// ---------------------------------------------------------------------
// Well-formed trees: every numeric-as-string attribute holds numeric text.
// ---------------------------------------------------------------------

pub open spec fn wf_obj(o: ObjT) -> bool {
    crate::text::is_num(o.otype.width) && crate::text::is_num(o.otype.height) && crate::text::is_num(
        o.x,
    ) && crate::text::is_num(o.y) && crate::text::is_num(o.scale) && crate::text::is_num(o.rot)
}

pub open spec fn wf_scene(s: SceneT) -> bool {
    forall|i: int| 0 <= i < s.objects.len() ==> wf_obj(#[trigger] s.objects[i])
}

pub open spec fn wf_tree(t: ProjT) -> bool {
    forall|i: int| 0 <= i < t.scenes.len() ==> wf_scene(#[trigger] t.scenes[i])
}

pub open spec fn obj_evented(o: ObjT) -> bool {
    forall|k: int| 0 <= k < o.rules.len() ==> (#[trigger] o.rules[k]).event is Some
}

pub open spec fn scene_evented(s: SceneT) -> bool {
    forall|j: int| 0 <= j < s.objects.len() ==> obj_evented(#[trigger] s.objects[j])
}

/// Every rule of the tree carries a trigger event.  Trees resolved from a
/// wire document in which every referenced rule identifier exists have
/// this shape; only placeholder rules lack an event.
pub open spec fn all_rules_evented(t: ProjT) -> bool {
    forall|i: int| 0 <= i < t.scenes.len() ==> scene_evented(#[trigger] t.scenes[i])
}

} // verus!
