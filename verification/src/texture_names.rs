//! The file names under which a level's texture references are looked up.
use vstd::prelude::*;
use crate::text::{chars_of, push_char, string_of};

verus! {

broadcast use vstd::string::to_string_from_display_ensures_for_str;

/// What `str::to_uppercase` makes of a text (full Unicode case mapping).
pub uninterp spec fn unicode_uppercase(s: Seq<char>) -> Seq<char>;

/// `str::to_uppercase`: the text with every character mapped to upper case
/// by the Unicode tables of the standard library; the result is named by
/// `unicode_uppercase`, a function of the text alone.
#[verifier::external_body]
fn to_upper(s: &str) -> (r: String)
    ensures
        r@ == unicode_uppercase(s@),
{
    s.to_uppercase()
}

/// The text without any `\` or `/`.
pub open spec fn without_separators(s: Seq<char>) -> Seq<char> {
    s.filter(|c: char| c != '\\' && c != '/')
}

pub open spec fn dtx_suffix() -> Seq<char> {
    seq!['.', 'D', 'T', 'X']
}

/// `upper` with ".DTX" appended unless it already ends so.
pub open spec fn with_dtx_suffix(upper: Seq<char>) -> Seq<char> {
    if upper.len() >= 4 && upper.subrange(upper.len() - 4, upper.len() as int) == dtx_suffix() {
        upper
    } else {
        upper + dtx_suffix()
    }
}

/// The file name searched for a texture reference: the reference without
/// separators, in upper case, with ".DTX" appended unless it already ends so.
pub open spec fn texture_file_spec(name: Seq<char>) -> Seq<char> {
    with_dtx_suffix(unicode_uppercase(without_separators(name)))
}

/// The upper-case name `upper` as a DTX file name: ".DTX" appended unless
/// it already ends so.
pub fn add_dtx_suffix(upper: String) -> (r: String)
    ensures
        r@ == with_dtx_suffix(upper@),
{
    let mut upper = upper;
    let up = chars_of(upper.as_str());
    let n = up.len();
    let ends_dtx = n >= 4 && up[n - 4] == '.' && up[n - 3] == 'D' && up[n - 2] == 'T' && up[n - 1]
        == 'X';
    proof {
        let clean = up@;
        if n >= 4 {
            assert(ends_dtx == (clean.subrange(n - 4, n as int) =~= dtx_suffix()));
        }
    }
    if !ends_dtx {
        push_char(&mut upper, '.');
        push_char(&mut upper, 'D');
        push_char(&mut upper, 'T');
        push_char(&mut upper, 'X');
        assert(upper@ =~= up@ + dtx_suffix());
    }
    upper
}

/// The DTX file name under which the texture `texture_name` is searched.
pub fn texture_file_name(texture_name: &str) -> (r: String)
    ensures
        r@ == texture_file_spec(texture_name@),
{
    let chars = chars_of(texture_name);
    let mut kept: Vec<char> = Vec::new();
    let mut k: usize = 0;
    assert(chars@.take(0).filter(|c: char| c != '\\' && c != '/') =~= Seq::<char>::empty());
    while k < chars.len()
        invariant
            k <= chars@.len(),
            kept@ == chars@.take(k as int).filter(|c: char| c != '\\' && c != '/'),
        decreases chars.len() - k,
    {
        let c = chars[k];
        proof {
            assert(chars@.take(k + 1) =~= chars@.take(k as int).push(c));
            chars@.take(k as int).lemma_filter_push(c, |c: char| c != '\\' && c != '/');
        }
        if c != '\\' && c != '/' {
            kept.push(c);
        }
        k = k + 1;
    }
    assert(chars@.take(chars@.len() as int) =~= chars@);
    let cleaned = string_of(&kept);
    let upper = to_upper(cleaned.as_str());
    add_dtx_suffix(upper)
}

/// `s` with every occurrence of `pat` removed, scanning left to right
/// (occurrences do not overlap).
pub open spec fn remove_all(s: Seq<char>, pat: Seq<char>) -> Seq<char>
    decreases s.len(),
{
    if pat.len() == 0 || s.len() < pat.len() {
        s
    } else if s.subrange(0, pat.len() as int) == pat {
        remove_all(s.subrange(pat.len() as int, s.len() as int), pat)
    } else {
        seq![s[0]] + remove_all(s.subrange(1, s.len() as int), pat)
    }
}

/// The part of `s` after its last `sep` (all of `s` when it has none).
pub open spec fn last_part(s: Seq<char>, sep: char) -> Seq<char> {
    if exists|i: int| 0 <= i < s.len() && s[i] == sep {
        let i = choose|i: int|
            0 <= i < s.len() && s[i] == sep && forall|j: int| i < j < s.len() ==> s[j] != sep;
        s.subrange(i + 1, s.len() as int)
    } else {
        s
    }
}

/// `s` with every occurrence of `pat` removed.
fn remove_occurrences(s: &Vec<char>, pat: &Vec<char>) -> (r: Vec<char>)
    requires
        pat@.len() > 0,
    ensures
        r@ == remove_all(s@, pat@),
{
    let mut out: Vec<char> = Vec::new();
    let n = s.len();
    let p = pat.len();
    let mut i: usize = 0;
    assert(s@.subrange(0, n as int) =~= s@);
    assert(out@ + remove_all(s@, pat@) =~= remove_all(s@, pat@));
    while i < n
        invariant
            i <= n,
            n == s@.len(),
            p == pat@.len(),
            p > 0,
            out@ + remove_all(s@.subrange(i as int, n as int), pat@) == remove_all(s@, pat@),
        decreases n - i,
    {
        let ghost rest = s@.subrange(i as int, n as int);
        let mut matches = n - i >= p;
        if matches {
            let mut m: usize = 0;
            while m < p
                invariant
                    m <= p,
                    p == pat@.len(),
                    i + p <= n,
                    n == s@.len(),
                    matches == forall|k: int| 0 <= k < m ==> s@[i + k] == pat@[k],
                decreases p - m,
            {
                if s[i + m] != pat[m] {
                    matches = false;
                }
                m = m + 1;
            }
        }
        if matches {
            assert(rest.subrange(0, p as int) =~= pat@);
            assert(rest.subrange(p as int, rest.len() as int) =~= s@.subrange(i + p, n as int));
            i = i + p;
        } else {
            proof {
                if rest.len() >= p {
                    assert(rest.subrange(0, p as int) != pat@) by {
                        let k = choose|k: int| 0 <= k < p && s@[i + k] != pat@[k];
                        assert(rest.subrange(0, p as int)[k] == s@[i + k]);
                    }
                    assert(rest.subrange(1, rest.len() as int) =~= s@.subrange(i + 1, n as int));
                    assert(out@.push(s@[i as int]) + remove_all(s@.subrange(i + 1, n as int), pat@)
                        =~= out@ + (seq![rest[0]] + remove_all(rest.subrange(1, rest.len() as int), pat@)));
                } else {
                    assert(remove_all(rest, pat@) == rest);
                    assert(s@.subrange(i + 1, n as int).len() < p);
                    assert(remove_all(s@.subrange(i + 1, n as int), pat@) == s@.subrange(i + 1, n as int));
                    assert(out@.push(s@[i as int]) + s@.subrange(i + 1, n as int) =~= out@ + rest);
                }
            }
            out.push(s[i]);
            i = i + 1;
        }
    }
    assert(s@.subrange(n as int, n as int) =~= Seq::<char>::empty());
    assert(out@ + Seq::<char>::empty() =~= out@);
    out
}

/// The part of `s` after its last `sep`.
fn after_last(s: &Vec<char>, sep: char) -> (r: Vec<char>)
    ensures
        r@ == last_part(s@, sep),
{
    let mut last: Option<usize> = None;
    let mut k: usize = 0;
    while k < s.len()
        invariant
            k <= s@.len(),
            match last {
                Some(i) => i < k && s@[i as int] == sep && forall|j: int| i < j < k ==> s@[j] != sep,
                None => forall|j: int| 0 <= j < k ==> s@[j] != sep,
            },
        decreases s.len() - k,
    {
        if s[k] == sep {
            last = Some(k);
        }
        k = k + 1;
    }
    let start = match last {
        Some(i) => i + 1,
        None => 0,
    };
    let mut out: Vec<char> = Vec::new();
    let mut m = start;
    while m < s.len()
        invariant
            start <= m <= s@.len(),
            out@ == s@.subrange(start as int, m as int),
        decreases s.len() - m,
    {
        out.push(s[m]);
        assert(s@.subrange(start as int, m + 1) =~= s@.subrange(start as int, m as int).push(s@[m as int]));
        m = m + 1;
    }
    proof {
        match last {
            Some(i) => {
                let j = choose|j: int|
                    0 <= j < s@.len() && s@[j] == sep && forall|m: int| j < m < s@.len() ==> s@[m] != sep;
                assert(j == i);
            },
            None => {
                assert(out@ =~= s@);
            },
        }
    }
    out
}

pub open spec fn textures_dir_upper() -> Seq<char> {
    seq!['T', 'E', 'X', 'T', 'U', 'R', 'E', 'S', '\\']
}

pub open spec fn textures_dir_lower() -> Seq<char> {
    seq!['t', 'e', 'x', 't', 'u', 'r', 'e', 's', '\\']
}

/// The names tried, in order, when looking up the file of a texture
/// reference: as given; without a `TEXTURES\` or `textures\` directory
/// part; and its last component after `\` and after `/`.
pub open spec fn name_variations(name: Seq<char>) -> Seq<Seq<char>> {
    seq![
        name,
        remove_all(name, textures_dir_upper()),
        remove_all(name, textures_dir_lower()),
        last_part(name, '\\'),
        last_part(name, '/'),
    ]
}

/// The names under which texture `texture_name` is looked up, in order.
pub fn texture_name_variations(texture_name: &str) -> (v: Vec<String>)
    ensures
        v@.len() == 5,
        forall|i: int| 0 <= i < 5 ==> #[trigger] v@[i]@ == name_variations(texture_name@)[i],
{
    let chars = chars_of(texture_name);
    let upper_dir = vec!['T', 'E', 'X', 'T', 'U', 'R', 'E', 'S', '\\'];
    let lower_dir = vec!['t', 'e', 'x', 't', 'u', 'r', 'e', 's', '\\'];
    assert(upper_dir@ =~= textures_dir_upper());
    assert(lower_dir@ =~= textures_dir_lower());
    let a = string_of(&chars);
    let b = string_of(&remove_occurrences(&chars, &upper_dir));
    let c = string_of(&remove_occurrences(&chars, &lower_dir));
    let d = string_of(&after_last(&chars, '\\'));
    let e = string_of(&after_last(&chars, '/'));
    let v = vec![a, b, c, d, e];
    v
}

} // verus!
