//! The list of world files offered by the world chooser: separators made
//! uniform, then in ascending text order.
use vstd::prelude::*;
use crate::text::{chars_of, push_char};

verus! {

broadcast use vstd::seq_lib::group_to_multiset_ensures;

/// `a` comes before or equals `b` in character order (what `String`'s
/// ordering gives, since UTF-8 keeps the order of code points).
pub open spec fn text_le(a: Seq<char>, b: Seq<char>) -> bool
    decreases a.len(),
{
    if a.len() == 0 {
        true
    } else if b.len() == 0 {
        false
    } else if a[0] < b[0] {
        true
    } else if a[0] > b[0] {
        false
    } else {
        text_le(a.drop_first(), b.drop_first())
    }
}

pub proof fn lemma_text_le_total(a: Seq<char>, b: Seq<char>)
    ensures
        text_le(a, b) || text_le(b, a),
    decreases a.len(),
{
    if a.len() > 0 && b.len() > 0 && a[0] == b[0] {
        lemma_text_le_total(a.drop_first(), b.drop_first());
    }
}

pub proof fn lemma_text_le_transitive(a: Seq<char>, b: Seq<char>, c: Seq<char>)
    requires
        text_le(a, b),
        text_le(b, c),
    ensures
        text_le(a, c),
    decreases a.len(),
{
    if a.len() > 0 && b.len() > 0 && c.len() > 0 && a[0] == b[0] && b[0] == c[0] {
        lemma_text_le_transitive(a.drop_first(), b.drop_first(), c.drop_first());
    }
}

/// The texts of `v` are in ascending order.
pub open spec fn texts_sorted(v: Seq<Seq<char>>) -> bool {
    forall|i: int, j: int| 0 <= i < j < v.len() ==> text_le(#[trigger] v[i], #[trigger] v[j])
}

/// The texts held by a list of strings.
pub open spec fn texts(v: Seq<String>) -> Seq<Seq<char>> {
    v.map_values(|s: String| s@)
}

/// `s` with every `\` turned into `/`.
pub open spec fn forward_slashes(s: Seq<char>) -> Seq<char> {
    s.map_values(|c: char| if c == '\\' { '/' } else { c })
}

/// Whether `a` comes before or equals `b` in character order.
fn text_le_exec(a: &String, b: &String) -> (r: bool)
    ensures
        r == text_le(a@, b@),
{
    let x = chars_of(a.as_str());
    let y = chars_of(b.as_str());
    let mut k: usize = 0;
    assert(x@.subrange(0, x@.len() as int) =~= x@);
    assert(y@.subrange(0, y@.len() as int) =~= y@);
    while k < x.len() && k < y.len()
        invariant
            k <= x@.len(),
            k <= y@.len(),
            x@ == a@,
            y@ == b@,
            text_le(x@, y@) == text_le(
                x@.subrange(k as int, x@.len() as int),
                y@.subrange(k as int, y@.len() as int),
            ),
        decreases x.len() - k,
    {
        let ghost xs = x@.subrange(k as int, x@.len() as int);
        let ghost ys = y@.subrange(k as int, y@.len() as int);
        assert(xs[0] == x@[k as int]);
        assert(ys[0] == y@[k as int]);
        if x[k] < y[k] {
            return true;
        }
        if x[k] > y[k] {
            return false;
        }
        assert(xs.drop_first() =~= x@.subrange(k + 1, x@.len() as int));
        assert(ys.drop_first() =~= y@.subrange(k + 1, y@.len() as int));
        k = k + 1;
    }
    let ghost xs = x@.subrange(k as int, x@.len() as int);
    let ghost ys = y@.subrange(k as int, y@.len() as int);
    if k == x.len() {
        assert(xs.len() == 0);
        true
    } else {
        assert(ys.len() == 0);
        assert(xs.len() > 0);
        false
    }
}

/// `s` with every `\` turned into `/`.
fn with_forward_slashes(s: &String) -> (r: String)
    ensures
        r@ == forward_slashes(s@),
{
    let cs = chars_of(s.as_str());
    let mut r = String::new();
    let mut k: usize = 0;
    while k < cs.len()
        invariant
            k <= cs@.len(),
            cs@ == s@,
            r@ == forward_slashes(s@).take(k as int),
        decreases cs.len() - k,
    {
        let c = if cs[k] == '\\' {
            '/'
        } else {
            cs[k]
        };
        push_char(&mut r, c);
        assert(r@ =~= forward_slashes(s@).take(k + 1));
        k = k + 1;
    }
    assert(forward_slashes(s@).take(cs@.len() as int) =~= forward_slashes(s@));
    r
}

/// The world file paths as the chooser lists them: every `\` made `/`, then
/// sorted in ascending text order (equal paths keep their order).
pub fn world_list(paths: Vec<String>) -> (v: Vec<String>)
    ensures
        texts(v@).to_multiset() == texts(paths@).map_values(|t: Seq<char>| forward_slashes(t)).to_multiset(),
        texts_sorted(texts(v@)),
{
    let mut v: Vec<String> = Vec::new();
    let mut k: usize = 0;
    while k < paths.len()
        invariant
            k <= paths@.len(),
            v@.len() == k,
            texts(v@) == texts(paths@).map_values(|t: Seq<char>| forward_slashes(t)).take(k as int),
        decreases paths.len() - k,
    {
        let s = with_forward_slashes(&paths[k]);
        let ghost old_v = v@;
        v.push(s);
        proof {
            let tgt = texts(paths@).map_values(|t: Seq<char>| forward_slashes(t));
            assert(tgt[k as int] == forward_slashes(paths@[k as int]@));
            assert forall|m: int| 0 <= m < k + 1 implies #[trigger] texts(v@)[m] == tgt.take(k + 1)[m] by {
                if m < k {
                    assert(v@[m] == old_v[m]);
                    assert(texts(old_v)[m] == tgt.take(k as int)[m]);
                }
            }
            assert(texts(v@) =~= tgt.take(k + 1));
        }
        k = k + 1;
    }
    let ghost target = texts(paths@).map_values(|t: Seq<char>| forward_slashes(t));
    assert(texts(v@) =~= target);
    // Insertion sort.
    let n = v.len();
    let mut i: usize = 1;
    if n == 0 {
        return v;
    }
    while i < n
        invariant
            1 <= i <= n,
            v@.len() == n,
            texts(v@).to_multiset() == target.to_multiset(),
            forall|a: int, b: int| 0 <= a < b < i ==> text_le(#[trigger] v@[a]@, #[trigger] v@[b]@),
        decreases n - i,
    {
        let ghost before = v@;
        let x = v.remove(i);
        let mut j: usize = 0;
        while j < i && text_le_exec(&v[j], &x)
            invariant
                j <= i,
                i < n,
                v@.len() == n - 1,
                v@ == before.remove(i as int),
                forall|a: int| 0 <= a < j ==> text_le(#[trigger] v@[a]@, x@),
            decreases i - j,
        {
            j = j + 1;
        }
        let ghost mid = v@;
        v.insert(j, x);
        proof {
            assert(texts(mid) =~= texts(before).remove(i as int));
            assert(texts(v@) =~= texts(mid).insert(j as int, x@));
            assert(texts(before)[i as int] == x@);
            assert(texts(mid).to_multiset() == texts(before).to_multiset().remove(x@));
            assert(texts(v@).to_multiset() == texts(mid).to_multiset().insert(x@));
            assert forall|a: int, b: int| 0 <= a < b < i + 1 implies text_le(
                #[trigger] v@[a]@,
                #[trigger] v@[b]@,
            ) by {
                // Positions before j hold elements not after x; x sits at j;
                // positions after j hold the rest of the sorted prefix.
                if b < j {
                    assert(v@[a] == before[a]);
                    assert(v@[b] == before[b]);
                } else if b == j {
                    assert(v@[a] == mid[a]);
                } else if a == j {
                    // x <= v[b]: either j == i or x < mid[j] <= mid[b - 1].
                    assert(v@[b] == mid[b - 1]);
                    assert(j < i);
                    assert(!text_le(mid[j as int]@, x@));
                    lemma_text_le_total(mid[j as int]@, x@);
                    if b - 1 > j {
                        assert(mid[j as int] == before[j as int]);
                        assert(mid[b - 1] == before[b - 1]);
                        lemma_text_le_transitive(x@, mid[j as int]@, mid[b - 1]@);
                    }
                } else if a < j {
                    assert(v@[a] == mid[a]);
                    assert(v@[b] == mid[b - 1]);
                    assert(mid[a] == before[a]);
                    assert(mid[b - 1] == before[b - 1]);
                } else {
                    assert(v@[a] == mid[a - 1]);
                    assert(v@[b] == mid[b - 1]);
                    assert(mid[a - 1] == before[a - 1]);
                    assert(mid[b - 1] == before[b - 1]);
                }
            }
        }
        i = i + 1;
    }
    proof {
        assert forall|a: int, b: int| 0 <= a < b < texts(v@).len() implies text_le(
            #[trigger] texts(v@)[a],
            #[trigger] texts(v@)[b],
        ) by {
            assert(text_le(v@[a]@, v@[b]@));
        }
    }
    v
}

} // verus!
