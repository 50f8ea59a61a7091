//! Which world objects are light sources.
use vstd::prelude::*;
use crate::texture::{find_run, has_run, lower_ascii, lower_char};

verus! {

/// `s` with ASCII capitals turned into small letters.
pub open spec fn ascii_lowercased(s: Seq<char>) -> Seq<char> {
    s.map_values(|c: char| lower_ascii(c))
}

pub open spec fn light_word() -> Seq<char> {
    seq!['l', 'i', 'g', 'h', 't']
}

/// Whether an object class is a light: Lithtech names its light classes
/// `Light`, `DirLight`, `BaseLight`, `PointLight`, `DynamicLight`,
/// `StaticLight`, `ObjectLight` and so on, so any class whose name holds
/// "light" in any letter case counts.
pub fn is_light_class(class_name: &str) -> (r: bool)
    ensures
        r == has_run(ascii_lowercased(class_name@), light_word()),
{
    let mut s: Vec<char> = Vec::new();
    for ch in it: class_name.chars()
        invariant
            it.seq() == class_name@,
            s@ == ascii_lowercased(class_name@).take(it.index() as int),
    {
        s.push(lower_char(ch));
        assert(s@ =~= ascii_lowercased(class_name@).take(it.index() + 1));
    }
    assert(s@ =~= ascii_lowercased(class_name@));
    let word = vec!['l', 'i', 'g', 'h', 't'];
    assert(word@ =~= light_word());
    find_run(&s, &word)
}

} // verus!
