use vstd::prelude::*;
use vstd::string::*;

verus! {

/// One column of a sort key, ordered as SQLite orders a column by default:
/// NULL first, then integers, then text compared character by character.
pub enum KeyPart {
    Null,
    Int(i64),
    Text(String),
}

pub enum KeyPartView {
    Null,
    Int(int),
    Text(Seq<char>),
}

impl View for KeyPart {
    type V = KeyPartView;

    open spec fn view(&self) -> KeyPartView {
        match self {
            KeyPart::Null => KeyPartView::Null,
            KeyPart::Int(i) => KeyPartView::Int(*i as int),
            KeyPart::Text(s) => KeyPartView::Text(s@),
        }
    }
}

pub open spec fn view_key(k: Seq<KeyPart>) -> Seq<KeyPartView> {
    k.map_values(|p: KeyPart| p@)
}

pub open spec fn view_keys(ks: Seq<Vec<KeyPart>>) -> Seq<Seq<KeyPartView>> {
    ks.map_values(|k: Vec<KeyPart>| view_key(k@))
}

/// Text order: by the first differing character's code, a proper prefix first.
pub open spec fn text_lt(a: Seq<char>, b: Seq<char>) -> bool
    decreases a.len(),
{
    if a.len() == 0 {
        b.len() > 0
    } else if b.len() == 0 {
        false
    } else if a[0] == b[0] {
        text_lt(a.drop_first(), b.drop_first())
    } else {
        (a[0] as u32) < (b[0] as u32)
    }
}

pub open spec fn part_lt(a: KeyPartView, b: KeyPartView) -> bool {
    match (a, b) {
        (KeyPartView::Null, KeyPartView::Null) => false,
        (KeyPartView::Null, _) => true,
        (_, KeyPartView::Null) => false,
        (KeyPartView::Int(x), KeyPartView::Int(y)) => x < y,
        (KeyPartView::Int(_), KeyPartView::Text(_)) => true,
        (KeyPartView::Text(_), KeyPartView::Int(_)) => false,
        (KeyPartView::Text(s), KeyPartView::Text(t)) => text_lt(s, t),
    }
}

/// Key order: by the first differing column.
pub open spec fn key_lt(a: Seq<KeyPartView>, b: Seq<KeyPartView>) -> bool
    decreases a.len(),
{
    if a.len() == 0 {
        b.len() > 0
    } else if b.len() == 0 {
        false
    } else if a[0] == b[0] {
        key_lt(a.drop_first(), b.drop_first())
    } else {
        part_lt(a[0], b[0])
    }
}

proof fn lemma_text_lt_asym(a: Seq<char>, b: Seq<char>)
    ensures
        !(text_lt(a, b) && text_lt(b, a)),
    decreases a.len(),
{
    if a.len() > 0 && b.len() > 0 && a[0] == b[0] {
        lemma_text_lt_asym(a.drop_first(), b.drop_first());
    }
}

proof fn lemma_text_lt_trans(a: Seq<char>, b: Seq<char>, c: Seq<char>)
    requires
        text_lt(a, b),
        text_lt(b, c),
    ensures
        text_lt(a, c),
    decreases a.len(),
{
    if a.len() > 0 && b.len() > 0 && c.len() > 0 && a[0] == b[0] && b[0] == c[0] {
        lemma_text_lt_trans(a.drop_first(), b.drop_first(), c.drop_first());
    }
}

proof fn lemma_part_lt(a: KeyPartView, b: KeyPartView, c: KeyPartView)
    ensures
        !(part_lt(a, b) && part_lt(b, a)),
        part_lt(a, b) && part_lt(b, c) ==> part_lt(a, c),
{
    if let (KeyPartView::Text(x), KeyPartView::Text(y)) = (a, b) {
        lemma_text_lt_asym(x, y);
        if let KeyPartView::Text(z) = c {
            if text_lt(x, y) && text_lt(y, z) {
                lemma_text_lt_trans(x, y, z);
            }
        }
    }
}

/// No key is smaller than itself.
pub proof fn lemma_key_lt_irrefl(a: Seq<KeyPartView>)
    ensures
        !key_lt(a, a),
    decreases a.len(),
{
    if a.len() > 0 {
        lemma_key_lt_irrefl(a.drop_first());
    }
}

/// Key order is transitive.
pub proof fn lemma_key_lt_trans(a: Seq<KeyPartView>, b: Seq<KeyPartView>, c: Seq<KeyPartView>)
    requires
        key_lt(a, b),
        key_lt(b, c),
    ensures
        key_lt(a, c),
    decreases a.len(),
{
    if a.len() > 0 && b.len() > 0 && c.len() > 0 {
        lemma_part_lt(a[0], b[0], c[0]);
        lemma_part_lt(b[0], c[0], a[0]);
        lemma_part_lt(c[0], a[0], b[0]);
        if a[0] == b[0] && b[0] == c[0] {
            lemma_key_lt_trans(a.drop_first(), b.drop_first(), c.drop_first());
        }
    }
}

fn text_less(a: &String, b: &String) -> (r: bool)
    ensures
        r == text_lt(a@, b@),
{
    let x = a.as_str();
    let y = b.as_str();
    let la = x.unicode_len();
    let lb = y.unicode_len();
    let mut i: usize = 0;
    assert(a@.subrange(0, la as int) =~= a@);
    assert(b@.subrange(0, lb as int) =~= b@);
    while i < la && i < lb && x.get_char(i) == y.get_char(i)
        invariant
            la == a@.len(),
            lb == b@.len(),
            x@ == a@,
            y@ == b@,
            i <= la,
            i <= lb,
            text_lt(a@, b@) == text_lt(a@.subrange(i as int, la as int), b@.subrange(i as int, lb as int)),
        decreases la - i,
    {
        assert(a@.subrange(i as int, la as int).drop_first() =~= a@.subrange(i + 1, la as int));
        assert(b@.subrange(i as int, lb as int).drop_first() =~= b@.subrange(i + 1, lb as int));
        i = i + 1;
    }
    if i == la {
        i < lb
    } else if i == lb {
        false
    } else {
        (x.get_char(i) as u32) < (y.get_char(i) as u32)
    }
}

fn part_same(a: &KeyPart, b: &KeyPart) -> (r: bool)
    ensures
        r == (a@ == b@),
{
    match (a, b) {
        (KeyPart::Null, KeyPart::Null) => true,
        (KeyPart::Int(x), KeyPart::Int(y)) => *x == *y,
        (KeyPart::Text(s), KeyPart::Text(t)) => *s == *t,
        _ => false,
    }
}

fn part_less(a: &KeyPart, b: &KeyPart) -> (r: bool)
    ensures
        r == part_lt(a@, b@),
{
    match (a, b) {
        (KeyPart::Null, KeyPart::Null) => false,
        (KeyPart::Null, _) => true,
        (_, KeyPart::Null) => false,
        (KeyPart::Int(x), KeyPart::Int(y)) => *x < *y,
        (KeyPart::Int(_), KeyPart::Text(_)) => true,
        (KeyPart::Text(_), KeyPart::Int(_)) => false,
        (KeyPart::Text(s), KeyPart::Text(t)) => text_less(s, t),
    }
}

/// Compares two keys.
pub fn key_less(a: &Vec<KeyPart>, b: &Vec<KeyPart>) -> (r: bool)
    ensures
        r == key_lt(view_key(a@), view_key(b@)),
{
    let ghost ka = view_key(a@);
    let ghost kb = view_key(b@);
    let mut i: usize = 0;
    assert(ka.subrange(0, a.len() as int) =~= ka);
    assert(kb.subrange(0, b.len() as int) =~= kb);
    while i < a.len() && i < b.len() && part_same(&a[i], &b[i])
        invariant
            ka == view_key(a@),
            kb == view_key(b@),
            i <= a.len(),
            i <= b.len(),
            key_lt(ka, kb) == key_lt(ka.subrange(i as int, a.len() as int), kb.subrange(i as int, b.len() as int)),
        decreases a.len() - i,
    {
        assert(ka.subrange(i as int, a.len() as int).drop_first() =~= ka.subrange(i + 1, a.len() as int));
        assert(kb.subrange(i as int, b.len() as int).drop_first() =~= kb.subrange(i + 1, b.len() as int));
        i = i + 1;
    }
    if i == a.len() {
        i < b.len()
    } else if i == b.len() {
        false
    } else {
        part_less(&a[i], &b[i])
    }
}

/// `ord` lists each of `0..n` exactly once.
pub open spec fn is_permutation(ord: Seq<int>, n: int) -> bool {
    &&& ord.len() == n
    &&& forall|k: int| 0 <= k < n ==> 0 <= #[trigger] ord[k] < n
    &&& forall|a: int, b: int| 0 <= a < n && 0 <= b < n && a != b ==> #[trigger] ord[a] != #[trigger] ord[b]
    &&& forall|i: int| 0 <= i < n ==> #[trigger] ord.contains(i)
}

/// No key is smaller than one before it.
pub open spec fn keys_sorted(ks: Seq<Seq<KeyPartView>>) -> bool {
    forall|i: int, j: int| 0 <= i < j < ks.len() ==> !key_lt(#[trigger] ks[j], #[trigger] ks[i])
}

/// `r` holds the rows of `rows` rearranged by the permutation `ord`.
pub open spec fn rearranged<T>(r: Seq<T>, rows: Seq<T>, ord: Seq<int>) -> bool {
    &&& is_permutation(ord, rows.len() as int)
    &&& r.len() == rows.len()
    &&& forall|k: int| 0 <= k < r.len() ==> #[trigger] r[k] == rows[ord[k]]
}

pub open spec fn usize_ints(v: Seq<usize>) -> Seq<int> {
    v.map_values(|x: usize| x as int)
}

/// `x` appears in `out` or in `rem`.
pub open spec fn covered(out: Seq<usize>, rem: Seq<usize>, x: int) -> bool {
    (exists|k: int| 0 <= k < out.len() && out[k] == x) || (exists|k: int| 0 <= k < rem.len() && rem[k] == x)
}

/// The order that sorts the keys: a permutation of their positions under
/// which no key is smaller than one before it.
pub fn sort_order(keys: &Vec<Vec<KeyPart>>) -> (r: Vec<usize>)
    ensures
        is_permutation(usize_ints(r@), keys@.len() as int),
        forall|i: int, j: int|
            0 <= i < j < r@.len() ==> !key_lt(
                #[trigger] view_keys(keys@)[r@[j] as int],
                #[trigger] view_keys(keys@)[r@[i] as int],
            ),
{
    let ghost ks = view_keys(keys@);
    let n = keys.len();
    let mut rem: Vec<usize> = Vec::new();
    let mut i: usize = 0;
    while i < n
        invariant
            i <= n,
            rem@.len() == i,
            forall|k: int| 0 <= k < i ==> #[trigger] rem@[k] == k,
        decreases n - i,
    {
        rem.push(i);
        i = i + 1;
    }
    let mut out: Vec<usize> = Vec::new();
    assert forall|x: int| 0 <= x < n implies #[trigger] covered(out@, rem@, x) by {
        assert(rem@[x] == x);
    }
    while rem.len() > 0
        invariant
            n == keys.len(),
            ks == view_keys(keys@),
            out@.len() + rem@.len() == n,
            forall|k: int| 0 <= k < out@.len() ==> #[trigger] out@[k] < n,
            forall|k: int| 0 <= k < rem@.len() ==> #[trigger] rem@[k] < n,
            forall|a: int, b: int| 0 <= a < out@.len() && 0 <= b < out@.len() && a != b ==> #[trigger] out@[a] != #[trigger] out@[b],
            forall|a: int, b: int| 0 <= a < rem@.len() && 0 <= b < rem@.len() && a != b ==> #[trigger] rem@[a] != #[trigger] rem@[b],
            forall|a: int, b: int| 0 <= a < out@.len() && 0 <= b < rem@.len() ==> #[trigger] out@[a] != #[trigger] rem@[b],
            forall|x: int| 0 <= x < n ==> #[trigger] covered(out@, rem@, x),
            forall|a: int, b: int| 0 <= a < b < out@.len() ==> !key_lt(#[trigger] ks[out@[b] as int], #[trigger] ks[out@[a] as int]),
            forall|a: int, b: int| 0 <= a < out@.len() && 0 <= b < rem@.len() ==> !key_lt(#[trigger] ks[rem@[b] as int], #[trigger] ks[out@[a] as int]),
        decreases rem@.len(),
    {
        let mut best: usize = 0;
        let mut t: usize = 1;
        proof {
            lemma_key_lt_irrefl(ks[rem@[0] as int]);
        }
        while t < rem.len()
            invariant
                n == keys.len(),
                ks == view_keys(keys@),
                forall|k: int| 0 <= k < rem@.len() ==> #[trigger] rem@[k] < n,
                best < t <= rem.len(),
                forall|k: int| 0 <= k < t ==> !key_lt(#[trigger] ks[rem@[k] as int], ks[rem@[best as int] as int]),
            decreases rem.len() - t,
        {
            if key_less(&keys[rem[t]], &keys[rem[best]]) {
                proof {
                    assert forall|k: int| 0 <= k < t + 1 implies !key_lt(#[trigger] ks[rem@[k] as int], ks[rem@[t as int] as int]) by {
                        lemma_key_lt_irrefl(ks[rem@[t as int] as int]);
                        if k < t && key_lt(ks[rem@[k] as int], ks[rem@[t as int] as int]) {
                            lemma_key_lt_trans(ks[rem@[k] as int], ks[rem@[t as int] as int], ks[rem@[best as int] as int]);
                        }
                    }
                }
                best = t;
            }
            t = t + 1;
        }
        let ghost old_out = out@;
        let ghost old_rem = rem@;
        let m = rem.remove(best);
        out.push(m);
        assert forall|x: int| 0 <= x < n implies #[trigger] covered(out@, rem@, x) by {
            assert(covered(old_out, old_rem, x));
            if exists|k: int| 0 <= k < old_out.len() && old_out[k] == x {
                let k = choose|k: int| 0 <= k < old_out.len() && old_out[k] == x;
                assert(out@[k] == x);
            } else {
                let k = choose|k: int| 0 <= k < old_rem.len() && old_rem[k] == x;
                if k < best {
                    assert(rem@[k] == x);
                } else if k > best {
                    assert(rem@[k - 1] == x);
                } else {
                    assert(out@[old_out.len() as int] == x);
                }
            }
        }
        assert forall|a: int, b: int| 0 <= a < out@.len() && 0 <= b < rem@.len() implies !key_lt(#[trigger] ks[rem@[b] as int], #[trigger] ks[out@[a] as int]) by {
            let b2 = if b < best { b } else { b + 1 };
            assert(rem@[b] == old_rem[b2]);
        }
        assert forall|a: int, b: int| 0 <= a < out@.len() && 0 <= b < rem@.len() implies #[trigger] out@[a] != #[trigger] rem@[b] by {
            let b2 = if b < best { b } else { b + 1 };
            assert(rem@[b] == old_rem[b2]);
        }
        assert forall|a: int, b: int| 0 <= a < rem@.len() && 0 <= b < rem@.len() && a != b implies #[trigger] rem@[a] != #[trigger] rem@[b] by {
            let a2 = if a < best { a } else { a + 1 };
            let b2 = if b < best { b } else { b + 1 };
            assert(rem@[a] == old_rem[a2] && rem@[b] == old_rem[b2]);
        }
        assert forall|k: int| 0 <= k < rem@.len() implies #[trigger] rem@[k] < n by {
            let k2 = if k < best { k } else { k + 1 };
            assert(rem@[k] == old_rem[k2]);
        }
    }
    let ghost o = usize_ints(out@);
    assert forall|x: int| 0 <= x < n implies #[trigger] o.contains(x) by {
        assert(covered(out@, rem@, x));
        let k = choose|k: int| 0 <= k < out@.len() && out@[k] == x;
        assert(o[k] == x);
    }
    out
}

} // verus!
