//! Texture pixel data: solid fallback textures, and the chromakey that makes
//! near-black pixels of fence-, web- and chain-like textures transparent.
use vstd::prelude::*;
use vstd::string::StringSliceAdditionalSpecFns;

verus! {

broadcast use vstd::string::to_string_from_display_ensures_for_str;

/// Texture pixels (RGBA, 8 bits per channel) before upload to the GPU.
pub struct LoadedTexture {
    pub pixels: Vec<u8>,
    pub width: u32,
    pub height: u32,
    pub name: String,
}

/// The RGBA bytes of `n` pixels of colour `(r, g, b)`, fully opaque.
pub open spec fn solid_pixels(n: int, r: u8, g: u8, b: u8) -> Seq<u8> {
    Seq::new(
        (4 * n) as nat,
        |i: int|
            if i % 4 == 0 {
                r
            } else if i % 4 == 1 {
                g
            } else if i % 4 == 2 {
                b
            } else {
                255u8
            },
    )
}

/// A `width` x `height` texture of one opaque colour, named "fallback".
pub fn create_colored_texture(width: u32, height: u32, r: u8, g: u8, b: u8) -> (t: LoadedTexture)
    requires
        width * height <= u32::MAX,
    ensures
        t.width == width,
        t.height == height,
        t.pixels@ == solid_pixels(width * height, r, g, b),
        t.name@ == "fallback"@,
{
    let pixel_count = (width * height) as usize;
    let mut pixels: Vec<u8> = Vec::new();
    let mut k: usize = 0;
    while k < pixel_count
        invariant
            k <= pixel_count,
            pixel_count == width * height,
            pixels@ == solid_pixels(k as int, r, g, b),
        decreases pixel_count - k,
    {
        pixels.push(r);
        pixels.push(g);
        pixels.push(b);
        pixels.push(255);
        assert(pixels@ =~= solid_pixels(k + 1, r, g, b));
        k = k + 1;
    }
    LoadedTexture { pixels, width, height, name: "fallback".to_string() }
}

/// The sum of the bytes in `s`.
pub open spec fn byte_sum(s: Seq<u8>) -> int
    decreases s.len(),
{
    if s.len() == 0 {
        0
    } else {
        byte_sum(s.drop_last()) + s.last()
    }
}

/// The hash that picks the colour of a texture that could not be loaded:
/// the sum of the bytes of its name, wrapping at 2^32.
pub open spec fn name_hash(name: &str) -> int {
    byte_sum(name.spec_bytes()) % 0x1_0000_0000
}

/// One channel of the fallback colour: between 55 and 254.
pub open spec fn fallback_channel(hash: int, factor: int) -> u8 {
    ((hash * factor) % 200 + 55) as u8
}

proof fn lemma_wrapping_step(sum: int, h: u32, b: u8)
    requires
        sum >= 0,
        h == sum % 0x1_0000_0000,
    ensures
        (if h + b > u32::MAX {
            h + b - 0x1_0000_0000
        } else {
            h + b
        }) == (sum + b) % 0x1_0000_0000,
{
    let m: int = 0x1_0000_0000;
    let q = sum / m;
    assert(sum == q * m + h) by (nonlinear_arith)
        requires
            m > 0,
            q == sum / m,
            h == sum % m,
    ;
    if h + b > u32::MAX {
        assert((sum + b) % m == h + b - m) by (nonlinear_arith)
            requires
                m > 0,
                sum + b == (q + 1) * m + (h + b - m),
                0 <= h + b - m < m,
        ;
    } else {
        assert((sum + b) % m == h + b) by (nonlinear_arith)
            requires
                m > 0,
                sum + b == q * m + (h + b),
                0 <= h + b < m,
        ;
    }
}

/// The colour of the stand-in for a texture that could not be loaded,
/// fixed by its name so that it stays the same from run to run.
pub fn fallback_color(texture_name: &str) -> (c: (u8, u8, u8))
    requires
        name_hash(texture_name) * 47 <= u32::MAX,
    ensures
        c.0 == fallback_channel(name_hash(texture_name), 17),
        c.1 == fallback_channel(name_hash(texture_name), 31),
        c.2 == fallback_channel(name_hash(texture_name), 47),
{
    let bytes = texture_name.as_bytes();
    let mut hash: u32 = 0;
    let mut i: usize = 0;
    while i < bytes.len()
        invariant
            i <= bytes@.len(),
            bytes@ == texture_name.spec_bytes(),
            hash == byte_sum(bytes@.take(i as int)) % 0x1_0000_0000,
        decreases bytes.len() - i,
    {
        proof {
            assert(bytes@.take(i + 1).drop_last() =~= bytes@.take(i as int));
            lemma_byte_sum_nonnegative(bytes@.take(i as int));
            lemma_wrapping_step(byte_sum(bytes@.take(i as int)), hash, bytes@[i as int]);
        }
        hash = hash.wrapping_add(bytes[i] as u32);
        i = i + 1;
    }
    assert(bytes@.take(i as int) =~= bytes@);
    let r = ((hash * 17) % 200 + 55) as u8;
    let g = ((hash * 31) % 200 + 55) as u8;
    let b = ((hash * 47) % 200 + 55) as u8;
    (r, g, b)
}

proof fn lemma_byte_sum_nonnegative(s: Seq<u8>)
    ensures
        byte_sum(s) >= 0,
    decreases s.len(),
{
    if s.len() > 0 {
        lemma_byte_sum_nonnegative(s.drop_last());
    }
}

/// Whether an RGB triple is near black (`r + g + b <= 15`).
pub open spec fn near_black(r: u8, g: u8, b: u8) -> bool {
    r + g + b <= 15
}

/// The pixels after the chromakey: in every whole RGBA pixel whose colour
/// is near black the alpha byte becomes 0; everything else is kept.
pub open spec fn chromakeyed(px: Seq<u8>) -> Seq<u8> {
    Seq::new(
        px.len(),
        |i: int|
            if i % 4 == 3 && i < 4 * (px.len() / 4) && near_black(px[i - 3], px[i - 2], px[i - 1]) {
                0u8
            } else {
                px[i]
            },
    )
}

/// Makes near-black pixels (`R + G + B <= 15`) fully transparent.
pub fn apply_chromakey(pixels: &mut [u8])
    ensures
        final(pixels)@ == chromakeyed(old(pixels)@),
{
    let plen = pixels.len();
    let n = plen / 4;
    let mut k: usize = 0;
    while k < n
        invariant
            k <= n,
            plen == pixels@.len(),
            n == old(pixels)@.len() / 4,
            pixels@.len() == old(pixels)@.len(),
            forall|i: int|
                0 <= i < 4 * k ==> #[trigger] pixels@[i] == chromakeyed(old(pixels)@)[i],
            forall|i: int| 4 * k <= i < pixels@.len() ==> #[trigger] pixels@[i] == old(pixels)@[i],
        decreases n - k,
    {
        let r = pixels[4 * k] as u16;
        let g = pixels[4 * k + 1] as u16;
        let b = pixels[4 * k + 2] as u16;
        if r + g + b <= 15 {
            pixels[4 * k + 3] = 0;
        }
        k = k + 1;
    }
    assert(pixels@ =~= chromakeyed(old(pixels)@));
}

/// `c` with ASCII capitals turned into small letters.
pub open spec fn lower_ascii(c: char) -> char {
    if 'A' <= c <= 'Z' {
        ((c as u32) + 32) as char
    } else {
        c
    }
}

/// The path as the chromakey test compares it: ASCII letters in lower
/// case, backslashes turned into slashes.
pub open spec fn normalized_path(path: Seq<char>) -> Seq<char> {
    path.map_values(
        |c: char|
            if lower_ascii(c) == '\\' {
                '/'
            } else {
                lower_ascii(c)
            },
    )
}

/// The part of `s` after its last `/` (all of `s` when it has none).
pub open spec fn last_component(s: Seq<char>) -> Seq<char> {
    if exists|i: int| 0 <= i < s.len() && s[i] == '/' {
        let i = choose|i: int|
            0 <= i < s.len() && s[i] == '/' && forall|j: int| i < j < s.len() ==> s[j] != '/';
        s.subrange(i + 1, s.len() as int)
    } else {
        s
    }
}

/// `pat` occurs in `s` as a contiguous run.
pub open spec fn has_run(s: Seq<char>, pat: Seq<char>) -> bool {
    exists|i: int| 0 <= i && i + pat.len() <= s.len() && #[trigger] s.subrange(i, i + pat.len()) == pat
}

/// The name fragments of textures that use near-black as transparency:
/// cobwebs, fences, bars, grates, chains, ropes, vines, railings, lattices
/// and nets.
pub open spec fn chromakey_patterns() -> Seq<Seq<char>> {
    seq![
        seq!['c', 'o', 'b', 'w', 'e', 'b'],
        seq!['s', 'p', 'i', 'd', 'e', 'r', 'w', 'e', 'b'],
        seq!['w', 'e', 'b'],
        seq!['f', 'e', 'n', 'c', 'e'],
        seq!['b', 'a', 'r', 's'],
        seq!['c', 'h', 'a', 'i', 'n'],
        seq!['r', 'o', 'p', 'e'],
        seq!['v', 'i', 'n', 'e', 's'],
        seq!['i', 'v', 'y'],
        seq!['r', 'a', 'i', 'l', 'i', 'n', 'g'],
        seq!['l', 'a', 't', 't', 'i', 'c', 'e'],
        seq!['n', 'e', 't'],
        seq!['c', 'h', 'l', 'i', 'n', 'k', 'd', 'e', 'l', 'u', 'x', 'e'],
        seq!['l', 'a', 'd', 'd', 'e', 'r', '_', 'm', 'e', 't'],
        seq!['g', 'r', 'a', 't', 'e'],
    ]
}

/// The file name of the normalized path holds one of the patterns.
pub open spec fn chromakey_wanted(path: Seq<char>) -> bool {
    exists|p: int|
        0 <= p < chromakey_patterns().len() && has_run(
            last_component(normalized_path(path)),
            #[trigger] chromakey_patterns()[p],
        )
}

pub(crate) fn lower_char(c: char) -> (r: char)
    ensures
        r == lower_ascii(c),
{
    if c >= 'A' && c <= 'Z' {
        let b = (c as u8) + 32;
        b as char
    } else {
        c
    }
}

fn chromakey_pattern_list() -> (v: Vec<Vec<char>>)
    ensures
        v@.len() == chromakey_patterns().len(),
        forall|p: int| 0 <= p < v@.len() ==> #[trigger] v@[p]@ == chromakey_patterns()[p],
{
    let v = vec![
        vec!['c', 'o', 'b', 'w', 'e', 'b'],
        vec!['s', 'p', 'i', 'd', 'e', 'r', 'w', 'e', 'b'],
        vec!['w', 'e', 'b'],
        vec!['f', 'e', 'n', 'c', 'e'],
        vec!['b', 'a', 'r', 's'],
        vec!['c', 'h', 'a', 'i', 'n'],
        vec!['r', 'o', 'p', 'e'],
        vec!['v', 'i', 'n', 'e', 's'],
        vec!['i', 'v', 'y'],
        vec!['r', 'a', 'i', 'l', 'i', 'n', 'g'],
        vec!['l', 'a', 't', 't', 'i', 'c', 'e'],
        vec!['n', 'e', 't'],
        vec!['c', 'h', 'l', 'i', 'n', 'k', 'd', 'e', 'l', 'u', 'x', 'e'],
        vec!['l', 'a', 'd', 'd', 'e', 'r', '_', 'm', 'e', 't'],
        vec!['g', 'r', 'a', 't', 'e'],
    ];
    v
}

/// Whether `pat` occurs in `s` as a contiguous run.
pub(crate) fn find_run(s: &Vec<char>, pat: &Vec<char>) -> (r: bool)
    ensures
        r == has_run(s@, pat@),
{
    if pat.len() > s.len() {
        return false;
    }
    if pat.len() == 0 {
        assert(s@.subrange(0, 0 + pat@.len() as int) =~= pat@);
        return true;
    }
    let slen = s.len();
    let last = s.len() - pat.len();
    let mut i: usize = 0;
    while i <= last
        invariant
            last == s@.len() - pat@.len(),
            pat@.len() <= s@.len(),
            pat@.len() >= 1,
            slen == s@.len(),
            forall|j: int| 0 <= j < i ==> #[trigger] s@.subrange(j, j + pat@.len()) != pat@,
        decreases last + 1 - i,
    {
        let mut m: usize = 0;
        let mut same = true;
        while m < pat.len()
            invariant
                i <= last,
                slen == s@.len(),
                pat@.len() >= 1,
                last == s@.len() - pat@.len(),
                m <= pat@.len(),
                same == forall|k: int| 0 <= k < m ==> s@[i + k] == pat@[k],
            decreases pat.len() - m,
        {
            if s[i + m] != pat[m] {
                same = false;
            }
            m = m + 1;
        }
        if same {
            assert(s@.subrange(i as int, i + pat@.len()) =~= pat@);
            return true;
        }
        assert(s@.subrange(i as int, i + pat@.len()) != pat@) by {
            let k = choose|k: int| 0 <= k < pat@.len() && s@[i + k] != pat@[k];
            assert(s@.subrange(i as int, i + pat@.len())[k] == s@[i + k]);
        }
        i = i + 1;
    }
    false
}

/// Whether the texture at `path` uses near-black as transparency: its file
/// name (lower case, either slash) holds one of the fragments of cobwebs,
/// fences, bars, grates, chains, ropes, vines, railings, lattices and nets
/// (`cobweb`, `spiderweb`, `web`, `fence`, `bars`, `grate`, `chain`,
/// `rope`, `vines`, `ivy`, `railing`, `lattice`, `net`, `chlinkdeluxe`,
/// `ladder_met`).
pub fn needs_chromakey(path: &str) -> (r: bool)
    ensures
        r == chromakey_wanted(path@),
{
    let ghost norm = normalized_path(path@);
    let mut s: Vec<char> = Vec::new();
    let mut last_slash: Option<usize> = None;
    for ch in it: path.chars()
        invariant
            it.seq() == path@,
            s@ == normalized_path(path@).take(it.index() as int),
            match last_slash {
                Some(i) => i < s@.len() && s@[i as int] == '/' && forall|j: int|
                    i < j < s@.len() ==> s@[j] != '/',
                None => forall|j: int| 0 <= j < s@.len() ==> s@[j] != '/',
            },
    {
        let l = lower_char(ch);
        let c = if l == '\\' {
            '/'
        } else {
            l
        };
        if c == '/' {
            last_slash = Some(s.len());
        }
        s.push(c);
        assert(s@ =~= normalized_path(path@).take(it.index() + 1));
    }
    assert(s@ =~= norm);
    let slen = s.len();
    let start = match last_slash {
        Some(i) => i + 1,
        None => 0,
    };
    let mut name: Vec<char> = Vec::new();
    let mut k = start;
    while k < s.len()
        invariant
            start <= k <= s@.len(),
            name@ == s@.subrange(start as int, k as int),
        decreases s.len() - k,
    {
        name.push(s[k]);
        assert(s@.subrange(start as int, k + 1) =~= s@.subrange(start as int, k as int).push(s@[k as int]));
        k = k + 1;
    }
    proof {
        match last_slash {
            Some(i) => {
                let j = choose|j: int|
                    0 <= j < norm.len() && norm[j] == '/' && forall|m: int| j < m < norm.len() ==> norm[m] != '/';
                assert(j == i);
                assert(name@ == last_component(norm));
            },
            None => {
                assert(name@ =~= s@);
                assert(name@ == last_component(norm));
            },
        }
    }
    let patterns = chromakey_pattern_list();
    let mut p: usize = 0;
    while p < patterns.len()
        invariant
            p <= patterns@.len(),
            patterns@.len() == chromakey_patterns().len(),
            forall|q: int| 0 <= q < patterns@.len() ==> #[trigger] patterns@[q]@ == chromakey_patterns()[q],
            name@ == last_component(norm),
            norm == normalized_path(path@),
            forall|q: int| 0 <= q < p ==> !has_run(name@, #[trigger] chromakey_patterns()[q]),
        decreases patterns.len() - p,
    {
        if find_run(&name, &patterns[p]) {
            return true;
        }
        p = p + 1;
    }
    false
}

} // verus!
