//! Which interactive object a placed model becomes, decided by its class
//! name, and the other lookups made while the object list is built from
//! a level.
use vstd::prelude::*;
use crate::text::{
    ascii_uppercased, begins_with, chars_of, ends_with, has_prefix, has_suffix, same_chars,
    upper_chars_of,
};

verus! {

/// The kinds of interactive object a placed model can become.
#[derive(Clone, Copy, Debug, PartialEq, Eq, Structural)]
pub enum ObjectKind {
    Barrel,
    Crate,
    Door,
    RotatingSwitch,
    SlideSwitch,
    Torch,
    Window,
    Water,
    Ladder,
    Outside,
    Pickup,
    Creature,
}

/// Class-name beginnings of the creature classes.
pub open spec fn creature_prefixes() -> Seq<Seq<char>> {
    seq![
        "CHeadless"@,
        "CArachniclown"@,
        "CBallBuster"@,
        "CBatwing"@,
        "CBlackwell"@,
        "CBladeMaster"@,
        "CFatLady"@,
        "CGasBag"@,
        "CGrinder"@,
        "CHellSpore"@,
        "CLarva"@,
        "CMeanieBeanie"@,
        "CPin"@,
        "CRotCrawl"@,
        "CStrongman"@,
        "CStrutter"@,
        "CStump"@,
        "CTiberius"@,
        "CTickler"@,
        "CUniPsycho"@,
        "CStarGrave"@,
        "CFortunado"@,
        "CRoly"@,
    ]
}

/// The class is a creature: its name begins with one of the creature
/// prefixes.
pub open spec fn is_creature_class(name: Seq<char>) -> bool {
    exists|p: int| 0 <= p < creature_prefixes().len() && begins_with(name, #[trigger] creature_prefixes()[p])
}

/// The class is a pickup item: its name ends in `Item_t`, or it is the
/// pickup trigger.
pub open spec fn is_pickup_class(name: Seq<char>) -> bool {
    ends_with(name, "Item_t"@) || name == "CPickupTrigger"@
}

/// The object a model of class `name` becomes; none for classes without
/// behaviour.
pub open spec fn kind_of_class(name: Seq<char>) -> Option<ObjectKind> {
    if name == "CBarrel"@ {
        Some(ObjectKind::Barrel)
    } else if name == "CCrate"@ || name == "CModelBreakable"@ {
        Some(ObjectKind::Crate)
    } else if name == "CDoorSliding"@ {
        Some(ObjectKind::Door)
    } else if name == "CSwitchRotating"@ {
        Some(ObjectKind::RotatingSwitch)
    } else if name == "CSwitchSlide"@ {
        Some(ObjectKind::SlideSwitch)
    } else if name == "CTorch"@ {
        Some(ObjectKind::Torch)
    } else if name == "CWindow"@ || name == "CWindowShattering"@ {
        Some(ObjectKind::Window)
    } else if name == "CWater"@ || name == "CWaterVolume"@ {
        Some(ObjectKind::Water)
    } else if name == "CLadder"@ {
        Some(ObjectKind::Ladder)
    } else if name == "OutsideDef"@ {
        Some(ObjectKind::Outside)
    } else if is_pickup_class(name) {
        Some(ObjectKind::Pickup)
    } else if is_creature_class(name) {
        Some(ObjectKind::Creature)
    } else {
        None
    }
}

fn creature_prefix_list() -> (v: Vec<&'static str>)
    ensures
        v@.len() == creature_prefixes().len(),
        forall|p: int| 0 <= p < v@.len() ==> (#[trigger] v@[p])@ == creature_prefixes()[p],
{
    vec![
        "CHeadless",
        "CArachniclown",
        "CBallBuster",
        "CBatwing",
        "CBlackwell",
        "CBladeMaster",
        "CFatLady",
        "CGasBag",
        "CGrinder",
        "CHellSpore",
        "CLarva",
        "CMeanieBeanie",
        "CPin",
        "CRotCrawl",
        "CStrongman",
        "CStrutter",
        "CStump",
        "CTiberius",
        "CTickler",
        "CUniPsycho",
        "CStarGrave",
        "CFortunado",
        "CRoly",
    ]
}

/// Whether the characters `name` spell `text`.
fn spells(name: &Vec<char>, text: &str) -> (r: bool)
    ensures
        r == (name@ == text@),
{
    same_chars(name, &chars_of(text))
}

/// The object that a placed model of class `class_name` becomes, or none
/// when the class has no behaviour of its own.
pub fn object_kind(class_name: &str) -> (k: Option<ObjectKind>)
    ensures
        k == kind_of_class(class_name@),
{
    let name = chars_of(class_name);
    if spells(&name, "CBarrel") {
        Some(ObjectKind::Barrel)
    } else if spells(&name, "CCrate") || spells(&name, "CModelBreakable") {
        Some(ObjectKind::Crate)
    } else if spells(&name, "CDoorSliding") {
        Some(ObjectKind::Door)
    } else if spells(&name, "CSwitchRotating") {
        Some(ObjectKind::RotatingSwitch)
    } else if spells(&name, "CSwitchSlide") {
        Some(ObjectKind::SlideSwitch)
    } else if spells(&name, "CTorch") {
        Some(ObjectKind::Torch)
    } else if spells(&name, "CWindow") || spells(&name, "CWindowShattering") {
        Some(ObjectKind::Window)
    } else if spells(&name, "CWater") || spells(&name, "CWaterVolume") {
        Some(ObjectKind::Water)
    } else if spells(&name, "CLadder") {
        Some(ObjectKind::Ladder)
    } else if spells(&name, "OutsideDef") {
        Some(ObjectKind::Outside)
    } else if has_suffix(&name, &chars_of("Item_t")) || spells(&name, "CPickupTrigger") {
        Some(ObjectKind::Pickup)
    } else {
        let ghost creature_or_none = if is_creature_class(class_name@) {
            Some(ObjectKind::Creature)
        } else {
            None
        };
        assert(kind_of_class(class_name@) == creature_or_none);
        let prefixes = creature_prefix_list();
        let mut p: usize = 0;
        while p < prefixes.len()
            invariant
                p <= prefixes@.len(),
                prefixes@.len() == creature_prefixes().len(),
                forall|q: int| 0 <= q < prefixes@.len() ==> (#[trigger] prefixes@[q])@ == creature_prefixes()[q],
                name@ == class_name@,
                kind_of_class(class_name@) == creature_or_none,
                creature_or_none == (if is_creature_class(class_name@) {
                    Some(ObjectKind::Creature)
                } else {
                    None
                }),
                forall|q: int| 0 <= q < p ==> !begins_with(name@, #[trigger] creature_prefixes()[q]),
            decreases prefixes.len() - p,
        {
            if has_prefix(&name, &chars_of(prefixes[p])) {
                assert(begins_with(name@, creature_prefixes()[p as int]));
                return Some(ObjectKind::Creature);
            }
            p = p + 1;
        }
        None
    }
}

/// A level sub-model named `name` is a rotating ceiling fan: its name, in
/// capitals, begins with `CROTATINGCEILINGFAN`.
pub fn is_ceiling_fan_model(name: &str) -> (r: bool)
    ensures
        r == begins_with(ascii_uppercased(name@), "CROTATINGCEILINGFAN"@),
{
    has_prefix(&upper_chars_of(name), &chars_of("CROTATINGCEILINGFAN"))
}

/// The flame of the torch placed as model `placed_index`: the draw group
/// and first index of the first entry `(model, draw group, first index)`
/// for that model, or `(0, 0)` when it has none.
pub fn torch_flame(torch_flames: &[(usize, usize, usize)], placed_index: usize) -> (r: (usize, usize))
    ensures
        (exists|i: int| 0 <= i < torch_flames@.len() && torch_flames@[i].0 == placed_index) ==> exists|
            i: int,
        |
            0 <= i < torch_flames@.len() && torch_flames@[i].0 == placed_index && (forall|j: int|
                0 <= j < i ==> torch_flames@[j].0 != placed_index) && r == (
                torch_flames@[i].1,
                torch_flames@[i].2,
            ),
        (forall|i: int| 0 <= i < torch_flames@.len() ==> torch_flames@[i].0 != placed_index) ==> r == (
            0usize,
            0usize,
        ),
{
    let mut i: usize = 0;
    while i < torch_flames.len()
        invariant
            i <= torch_flames@.len(),
            forall|j: int| 0 <= j < i ==> torch_flames@[j].0 != placed_index,
        decreases torch_flames.len() - i,
    {
        let (model, draw_group, first_index) = torch_flames[i];
        if model == placed_index {
            return (draw_group, first_index);
        }
        i = i + 1;
    }
    (0, 0)
}

/// A recognised placed model: its kind, its place in the list of placed
/// models, and the draw group that shows it.
#[derive(Clone, Copy, Debug, PartialEq, Eq, Structural)]
pub struct PlacedObject {
    pub kind: ObjectKind,
    pub placed_index: usize,
    pub draw_group: usize,
}

/// The objects made from the first `k` placed models of classes `names`,
/// whose draw groups are numbered from `first`: one per model whose class
/// has behaviour, in order.
pub open spec fn placed_objects_upto(names: Seq<String>, first: int, k: int) -> Seq<PlacedObject>
    decreases k,
{
    if k <= 0 {
        Seq::empty()
    } else {
        let prev = placed_objects_upto(names, first, k - 1);
        match kind_of_class(names[k - 1]@) {
            Some(kind) => prev.push(
                PlacedObject { kind, placed_index: (k - 1) as usize, draw_group: (first + k - 1) as usize },
            ),
            None => prev,
        }
    }
}

/// The interactive objects of a level's placed models, whose draw groups
/// follow one another from `first_draw_group`: for every model whose class
/// has behaviour, in order, its kind, its index and its draw group
/// `first_draw_group + index`.
pub fn placed_objects(class_names: &[String], first_draw_group: usize) -> (v: Vec<PlacedObject>)
    requires
        class_names@.len() == 0 || first_draw_group + class_names@.len() - 1 <= usize::MAX,
    ensures
        v@ == placed_objects_upto(class_names@, first_draw_group as int, class_names@.len() as int),
{
    let mut v: Vec<PlacedObject> = Vec::new();
    let mut i: usize = 0;
    while i < class_names.len()
        invariant
            i <= class_names@.len(),
            class_names@.len() == 0 || first_draw_group + class_names@.len() - 1 <= usize::MAX,
            v@ == placed_objects_upto(class_names@, first_draw_group as int, i as int),
        decreases class_names.len() - i,
    {
        let dg = first_draw_group + i;
        match object_kind(class_names[i].as_str()) {
            Some(kind) => {
                v.push(PlacedObject { kind, placed_index: i, draw_group: dg });
            },
            None => {},
        }
        i = i + 1;
    }
    v
}

} // verus!
