//! Laws of the class-name decision: which placed models become creatures.
use vstd::prelude::*;
use crate::object_kinds::{creature_prefixes, kind_of_class, ObjectKind};
use crate::text::{begins_with, ends_with};

verus! {

/// The beginnings of the class names of the circus's creatures.
pub open spec fn creature_name_starts() -> Seq<Seq<char>> {
    seq![
        seq!['C', 'H', 'e', 'a', 'd', 'l', 'e', 's', 's'],
        seq!['C', 'A', 'r', 'a', 'c', 'h', 'n', 'i', 'c', 'l', 'o', 'w', 'n'],
        seq!['C', 'B', 'a', 'l', 'l', 'B', 'u', 's', 't', 'e', 'r'],
        seq!['C', 'B', 'a', 't', 'w', 'i', 'n', 'g'],
        seq!['C', 'B', 'l', 'a', 'c', 'k', 'w', 'e', 'l', 'l'],
        seq!['C', 'B', 'l', 'a', 'd', 'e', 'M', 'a', 's', 't', 'e', 'r'],
        seq!['C', 'F', 'a', 't', 'L', 'a', 'd', 'y'],
        seq!['C', 'G', 'a', 's', 'B', 'a', 'g'],
        seq!['C', 'G', 'r', 'i', 'n', 'd', 'e', 'r'],
        seq!['C', 'H', 'e', 'l', 'l', 'S', 'p', 'o', 'r', 'e'],
        seq!['C', 'L', 'a', 'r', 'v', 'a'],
        seq!['C', 'M', 'e', 'a', 'n', 'i', 'e', 'B', 'e', 'a', 'n', 'i', 'e'],
        seq!['C', 'P', 'i', 'n'],
        seq!['C', 'R', 'o', 't', 'C', 'r', 'a', 'w', 'l'],
        seq!['C', 'S', 't', 'r', 'o', 'n', 'g', 'm', 'a', 'n'],
        seq!['C', 'S', 't', 'r', 'u', 't', 't', 'e', 'r'],
        seq!['C', 'S', 't', 'u', 'm', 'p'],
        seq!['C', 'T', 'i', 'b', 'e', 'r', 'i', 'u', 's'],
        seq!['C', 'T', 'i', 'c', 'k', 'l', 'e', 'r'],
        seq!['C', 'U', 'n', 'i', 'P', 's', 'y', 'c', 'h', 'o'],
        seq!['C', 'S', 't', 'a', 'r', 'G', 'r', 'a', 'v', 'e'],
        seq!['C', 'F', 'o', 'r', 't', 'u', 'n', 'a', 'd', 'o'],
        seq!['C', 'R', 'o', 'l', 'y'],
    ]
}

/// The ending of the class names of pickup items.
pub open spec fn item_ending() -> Seq<char> {
    seq!['I', 't', 'e', 'm', '_', 't']
}

proof fn lemma_prefix_lists_agree()
    ensures
        creature_prefixes() == creature_name_starts(),
{
    reveal_strlit("CHeadless");
    reveal_strlit("CArachniclown");
    reveal_strlit("CBallBuster");
    reveal_strlit("CBatwing");
    reveal_strlit("CBlackwell");
    reveal_strlit("CBladeMaster");
    reveal_strlit("CFatLady");
    reveal_strlit("CGasBag");
    reveal_strlit("CGrinder");
    reveal_strlit("CHellSpore");
    reveal_strlit("CLarva");
    reveal_strlit("CMeanieBeanie");
    reveal_strlit("CPin");
    reveal_strlit("CRotCrawl");
    reveal_strlit("CStrongman");
    reveal_strlit("CStrutter");
    reveal_strlit("CStump");
    reveal_strlit("CTiberius");
    reveal_strlit("CTickler");
    reveal_strlit("CUniPsycho");
    reveal_strlit("CStarGrave");
    reveal_strlit("CFortunado");
    reveal_strlit("CRoly");
    assert(creature_prefixes()[0] =~= creature_name_starts()[0]);
    assert(creature_prefixes()[1] =~= creature_name_starts()[1]);
    assert(creature_prefixes()[2] =~= creature_name_starts()[2]);
    assert(creature_prefixes()[3] =~= creature_name_starts()[3]);
    assert(creature_prefixes()[4] =~= creature_name_starts()[4]);
    assert(creature_prefixes()[5] =~= creature_name_starts()[5]);
    assert(creature_prefixes()[6] =~= creature_name_starts()[6]);
    assert(creature_prefixes()[7] =~= creature_name_starts()[7]);
    assert(creature_prefixes()[8] =~= creature_name_starts()[8]);
    assert(creature_prefixes()[9] =~= creature_name_starts()[9]);
    assert(creature_prefixes()[10] =~= creature_name_starts()[10]);
    assert(creature_prefixes()[11] =~= creature_name_starts()[11]);
    assert(creature_prefixes()[12] =~= creature_name_starts()[12]);
    assert(creature_prefixes()[13] =~= creature_name_starts()[13]);
    assert(creature_prefixes()[14] =~= creature_name_starts()[14]);
    assert(creature_prefixes()[15] =~= creature_name_starts()[15]);
    assert(creature_prefixes()[16] =~= creature_name_starts()[16]);
    assert(creature_prefixes()[17] =~= creature_name_starts()[17]);
    assert(creature_prefixes()[18] =~= creature_name_starts()[18]);
    assert(creature_prefixes()[19] =~= creature_name_starts()[19]);
    assert(creature_prefixes()[20] =~= creature_name_starts()[20]);
    assert(creature_prefixes()[21] =~= creature_name_starts()[21]);
    assert(creature_prefixes()[22] =~= creature_name_starts()[22]);
    assert(creature_prefixes() =~= creature_name_starts());
}

/// No class name with a behaviour of its own begins like a creature.
proof fn lemma_named_classes_differ(name: Seq<char>, q: int)
    requires
        0 <= q < creature_name_starts().len(),
        begins_with(name, creature_name_starts()[q]),
    ensures
        name != "CBarrel"@,
        name != "CCrate"@,
        name != "CModelBreakable"@,
        name != "CDoorSliding"@,
        name != "CSwitchRotating"@,
        name != "CSwitchSlide"@,
        name != "CTorch"@,
        name != "CWindow"@,
        name != "CWindowShattering"@,
        name != "CWater"@,
        name != "CWaterVolume"@,
        name != "CLadder"@,
        name != "OutsideDef"@,
        name != "CPickupTrigger"@,
{
    reveal_strlit("CBarrel");
    reveal_strlit("CCrate");
    reveal_strlit("CModelBreakable");
    reveal_strlit("CDoorSliding");
    reveal_strlit("CSwitchRotating");
    reveal_strlit("CSwitchSlide");
    reveal_strlit("CTorch");
    reveal_strlit("CWindow");
    reveal_strlit("CWindowShattering");
    reveal_strlit("CWater");
    reveal_strlit("CWaterVolume");
    reveal_strlit("CLadder");
    reveal_strlit("OutsideDef");
    reveal_strlit("CPickupTrigger");
    let p = creature_name_starts()[q];
    // The first four characters of the name are those of the prefix.
    assert(p.len() >= 4);
    assert(name[0] == p[0] && name[1] == p[1] && name[2] == p[2] && name[3] == p[3]) by {
        assert(name.take(p.len() as int) == p);
        assert(name.take(p.len() as int)[0] == name[0]);
        assert(name.take(p.len() as int)[1] == name[1]);
        assert(name.take(p.len() as int)[2] == name[2]);
        assert(name.take(p.len() as int)[3] == name[3]);
    }
}

/// Every class whose name begins with one of the creature name beginnings
/// is a creature, unless its name ends like a pickup item's.
pub proof fn lemma_creature_by_prefix(name: Seq<char>, q: int)
    requires
        0 <= q < creature_name_starts().len(),
        begins_with(name, creature_name_starts()[q]),
        !ends_with(name, item_ending()),
    ensures
        kind_of_class(name) == Some(ObjectKind::Creature),
{
    lemma_prefix_lists_agree();
    lemma_named_classes_differ(name, q);
    reveal_strlit("Item_t");
    assert("Item_t"@ =~= item_ending());
    assert(begins_with(name, creature_prefixes()[q]));
}

/// Only classes whose names begin with a creature name beginning are
/// creatures.
pub proof fn lemma_creature_has_prefix(name: Seq<char>)
    requires
        kind_of_class(name) == Some(ObjectKind::Creature),
    ensures
        exists|q: int| 0 <= q < creature_name_starts().len() && begins_with(name, #[trigger] creature_name_starts()[q]),
{
    lemma_prefix_lists_agree();
    let p = choose|p: int| 0 <= p < creature_prefixes().len() && begins_with(name, #[trigger] creature_prefixes()[p]);
    assert(begins_with(name, creature_name_starts()[p]));
}

} // verus!
