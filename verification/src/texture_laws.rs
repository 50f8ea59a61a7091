//! Laws of the chromakey: which pixels it clears, and which file names
//! call for it.
use vstd::prelude::*;
use crate::texture::{
    chromakey_patterns, chromakey_wanted, chromakeyed, has_run, last_component, lower_ascii,
    normalized_path,
};

verus! {

/// Every whole pixel keeps its colour; its alpha is cleared exactly when its
/// three colour channels, added as integers, come to at most 15, and is
/// kept otherwise; bytes after the last whole pixel are kept.
pub proof fn lemma_chromakey_pixel(px: Seq<u8>, k: int)
    requires
        0 <= k < px.len() / 4,
    ensures
        chromakeyed(px).len() == px.len(),
        chromakeyed(px)[4 * k] == px[4 * k],
        chromakeyed(px)[4 * k + 1] == px[4 * k + 1],
        chromakeyed(px)[4 * k + 2] == px[4 * k + 2],
        px[4 * k] as int + px[4 * k + 1] as int + px[4 * k + 2] as int > 15 ==> chromakeyed(px)[4 * k
            + 3] == px[4 * k + 3],
        px[4 * k] as int + px[4 * k + 1] as int + px[4 * k + 2] as int <= 15 ==> chromakeyed(px)[4 * k
            + 3] == 0,
{
    assert((4 * k) % 4 == 0 && (4 * k + 1) % 4 == 1 && (4 * k + 2) % 4 == 2 && (4 * k + 3) % 4 == 3);
    assert(4 * k + 3 < 4 * (px.len() / 4));
}

/// Bytes after the last whole pixel are never changed.
pub proof fn lemma_chromakey_tail(px: Seq<u8>, j: int)
    requires
        4 * (px.len() / 4) <= j < px.len(),
    ensures
        chromakeyed(px)[j] == px[j],
{
}

/// `c` in lower case if it is an ASCII capital.
pub open spec fn small_letter(c: char) -> char {
    if 'A' <= c && c <= 'Z' {
        ((c as u32) + 32) as char
    } else {
        c
    }
}

/// `s` with its ASCII capitals in lower case.
pub open spec fn in_small_letters(s: Seq<char>) -> Seq<char> {
    s.map_values(|c: char| small_letter(c))
}

/// The name fragments of cobwebs, fences, bars, grates, chains, ropes,
/// vines, railings, lattices and nets, whose textures use near-black as
/// transparency.
pub open spec fn transparency_fragments() -> Seq<Seq<char>> {
    seq![
        seq!['c', 'o', 'b', 'w', 'e', 'b'],
        seq!['s', 'p', 'i', 'd', 'e', 'r', 'w', 'e', 'b'],
        seq!['w', 'e', 'b'],
        seq!['f', 'e', 'n', 'c', 'e'],
        seq!['b', 'a', 'r', 's'],
        seq!['c', 'h', 'a', 'i', 'n'],
        seq!['r', 'o', 'p', 'e'],
        seq!['v', 'i', 'n', 'e', 's'],
        seq!['i', 'v', 'y'],
        seq!['r', 'a', 'i', 'l', 'i', 'n', 'g'],
        seq!['l', 'a', 't', 't', 'i', 'c', 'e'],
        seq!['n', 'e', 't'],
        seq!['c', 'h', 'l', 'i', 'n', 'k', 'd', 'e', 'l', 'u', 'x', 'e'],
        seq!['l', 'a', 'd', 'd', 'e', 'r', '_', 'm', 'e', 't'],
        seq!['g', 'r', 'a', 't', 'e'],
    ]
}

/// `s` holds no `/` and no `\`.
pub open spec fn no_separator(s: Seq<char>) -> bool {
    !s.contains('/') && !s.contains('\\')
}

proof fn lemma_normalized_name(name: Seq<char>)
    requires
        no_separator(name),
    ensures
        normalized_path(name) == in_small_letters(name),
        !in_small_letters(name).contains('/'),
{
    assert forall|i: int| 0 <= i < name.len() implies normalized_path(name)[i] == in_small_letters(
        name,
    )[i] && in_small_letters(name)[i] != '/' by {
        let c = name[i];
        assert(c != '\\' && c != '/') by {
            if c == '\\' {
                assert(name.contains('\\'));
            }
            if c == '/' {
                assert(name.contains('/'));
            }
        }
        assert(lower_ascii(c) == small_letter(c));
        if 'A' <= c && c <= 'Z' {
            assert('a' <= small_letter(c) && small_letter(c) <= 'z') by {
                assert(((c as u32) + 32) as char == small_letter(c));
            }
        }
    }
    assert(normalized_path(name) =~= in_small_letters(name));
    if in_small_letters(name).contains('/') {
        let i = choose|i: int| 0 <= i < in_small_letters(name).len() && in_small_letters(name)[i] == '/';
        assert(in_small_letters(name)[i] != '/');
    }
}

proof fn lemma_last_after_slash(x: Seq<char>, y: Seq<char>)
    requires
        !y.contains('/'),
    ensures
        last_component(x + seq!['/'] + y) == y,
{
    let s = x + seq!['/'] + y;
    let k = x.len() as int;
    assert(s[k] == '/');
    assert forall|j: int| k < j < s.len() implies s[j] != '/' by {
        assert(s[j] == y[j - k - 1]);
        if s[j] == '/' {
            assert(y.contains('/'));
        }
    }
    let i = choose|i: int| 0 <= i < s.len() && s[i] == '/' && forall|j: int| i < j < s.len() ==> s[j] != '/';
    if i < k {
        assert(s[k] == '/');
    }
    assert(i == k);
    assert(s.subrange(k + 1, s.len() as int) =~= y);
}

/// The fragments are the ones the chromakey test looks for.
proof fn lemma_fragments_are_patterns()
    ensures
        chromakey_patterns() == transparency_fragments(),
{
    assert(chromakey_patterns() =~= transparency_fragments());
}

/// A texture file `name` (no directory) needs the chromakey exactly when,
/// with its capitals made small, it holds one of the transparency
/// fragments.
pub proof fn lemma_chromakey_for_file_name(name: Seq<char>)
    requires
        no_separator(name),
    ensures
        chromakey_wanted(name) <==> exists|q: int|
            0 <= q < transparency_fragments().len() && has_run(
                in_small_letters(name),
                #[trigger] transparency_fragments()[q],
            ),
{
    lemma_normalized_name(name);
    lemma_fragments_are_patterns();
    assert(last_component(in_small_letters(name)) == in_small_letters(name));
}

/// The directories in front of a texture's file name do not matter: a path
/// `dir/name` needs the chromakey exactly when `name`, with its capitals
/// made small, holds one of the transparency fragments.
pub proof fn lemma_chromakey_ignores_directory(dir: Seq<char>, name: Seq<char>)
    requires
        no_separator(name),
    ensures
        chromakey_wanted(dir + seq!['/'] + name) <==> exists|q: int|
            0 <= q < transparency_fragments().len() && has_run(
                in_small_letters(name),
                #[trigger] transparency_fragments()[q],
            ),
{
    lemma_normalized_name(name);
    lemma_fragments_are_patterns();
    let nd = normalized_path(dir);
    assert(normalized_path(dir + seq!['/'] + name) =~= nd + seq!['/'] + in_small_letters(name));
    lemma_last_after_slash(nd, in_small_letters(name));
}

} // verus!
