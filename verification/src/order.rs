//! Lexicographic order on character sequences and a verified insertion sort
//! over any key with a total preorder.
use vstd::prelude::*;
use vstd::multiset::Multiset;
use crate::text::chars_of;

verus! {

broadcast use vstd::seq_lib::group_to_multiset_ensures;

/// Strict lexicographic order by code point. On valid UTF-8 this is the order
/// in which `str`'s `Ord` compares bytes.
pub open spec fn seq_lt(a: Seq<char>, b: Seq<char>) -> bool
    decreases a.len(),
{
    if a.len() == 0 {
        b.len() > 0
    } else if b.len() == 0 {
        false
    } else if a[0] != b[0] {
        (a[0] as u32) < (b[0] as u32)
    } else {
        seq_lt(a.drop_first(), b.drop_first())
    }
}

/// The outcome of comparing two values.
#[derive(Debug, Clone, Copy, PartialEq, Eq)]
pub enum LexOrder {
    Less,
    Same,
    Greater,
}

/// Distinct characters have distinct code points.
pub proof fn lemma_char_cast_injective(x: char, y: char)
    ensures
        x != y ==> (x as u32) != (y as u32),
{
    vstd::utf8::char_u32_cast(x, x as u32);
    vstd::utf8::char_u32_cast(y, y as u32);
}

/// No sequence is below itself, and the order is asymmetric.
pub proof fn lemma_lt_asym(a: Seq<char>, b: Seq<char>)
    ensures
        seq_lt(a, b) ==> !seq_lt(b, a),
        !seq_lt(a, a),
    decreases a.len(),
{
    if a.len() > 0 && b.len() > 0 && a[0] == b[0] {
        lemma_lt_asym(a.drop_first(), b.drop_first());
    }
    if a.len() > 0 {
        lemma_lt_asym(a.drop_first(), a.drop_first());
    }
}

/// Any two sequences are equal or ordered one way.
pub proof fn lemma_lt_total(a: Seq<char>, b: Seq<char>)
    ensures
        a == b || seq_lt(a, b) || seq_lt(b, a),
    decreases a.len(),
{
    if a.len() == 0 && b.len() == 0 {
        assert(a =~= b);
    } else if a.len() > 0 && b.len() > 0 && a[0] == b[0] {
        lemma_lt_total(a.drop_first(), b.drop_first());
        if a.drop_first() == b.drop_first() {
            assert(a =~= seq![a[0]] + a.drop_first());
            assert(b =~= seq![b[0]] + b.drop_first());
        }
    } else if a.len() > 0 && b.len() > 0 {
        lemma_char_cast_injective(a[0], b[0]);
    }
}

/// The order is transitive.
pub proof fn lemma_lt_trans(a: Seq<char>, b: Seq<char>, c: Seq<char>)
    requires
        seq_lt(a, b),
        seq_lt(b, c),
    ensures
        seq_lt(a, c),
    decreases a.len(),
{
    if a.len() > 0 && b.len() > 0 && c.len() > 0 && a[0] == b[0] && b[0] == c[0] {
        lemma_lt_trans(a.drop_first(), b.drop_first(), c.drop_first());
    }
}

proof fn lemma_lt_common_prefix(a: Seq<char>, b: Seq<char>, i: int)
    requires
        0 <= i <= a.len(),
        i <= b.len(),
        forall|j: int| 0 <= j < i ==> a[j] == b[j],
    ensures
        seq_lt(a, b) == seq_lt(a.skip(i), b.skip(i)),
    decreases i,
{
    if i == 0 {
        assert(a.skip(0) =~= a);
        assert(b.skip(0) =~= b);
    } else {
        assert(a[0] == b[0]);
        lemma_lt_common_prefix(a.drop_first(), b.drop_first(), i - 1);
        assert(a.drop_first().skip(i - 1) =~= a.skip(i));
        assert(b.drop_first().skip(i - 1) =~= b.skip(i));
    }
}

/// Compares two character sequences lexicographically.
pub fn compare_chars(a: &Vec<char>, b: &Vec<char>) -> (r: LexOrder)
    ensures
        (r == LexOrder::Less) == seq_lt(a@, b@),
        (r == LexOrder::Same) == (a@ == b@),
        (r == LexOrder::Greater) == seq_lt(b@, a@),
{
    let mut i: usize = 0;
    while i < a.len() && i < b.len() && a[i] == b[i]
        invariant
            i <= a.len(),
            i <= b.len(),
            forall|j: int| 0 <= j < i ==> a@[j] == b@[j],
        decreases a.len() - i,
    {
        i = i + 1;
    }
    proof {
        lemma_lt_common_prefix(a@, b@, i as int);
        lemma_lt_common_prefix(b@, a@, i as int);
        lemma_lt_asym(a@, b@);
        lemma_lt_asym(a@, a@);
        lemma_lt_total(a@, b@);
        let sa = a@.skip(i as int);
        let sb = b@.skip(i as int);
        if i < a.len() && i < b.len() {
            assert(sa[0] == a@[i as int]);
            assert(sb[0] == b@[i as int]);
            lemma_char_cast_injective(a@[i as int], b@[i as int]);
        }
        if i == a.len() && i == b.len() {
            assert(a@ =~= b@);
        }
    }
    if i < a.len() && i < b.len() {
        if (a[i] as u32) < (b[i] as u32) {
            LexOrder::Less
        } else {
            LexOrder::Greater
        }
    } else if i < b.len() {
        LexOrder::Less
    } else if i < a.len() {
        LexOrder::Greater
    } else {
        LexOrder::Same
    }
}

/// Compares two strings lexicographically by their characters.
pub fn compare_str(a: &str, b: &str) -> (r: LexOrder)
    ensures
        (r == LexOrder::Less) == seq_lt(a@, b@),
        (r == LexOrder::Same) == (a@ == b@),
        (r == LexOrder::Greater) == seq_lt(b@, a@),
{
    let va = chars_of(a);
    let vb = chars_of(b);
    compare_chars(&va, &vb)
}

/// A type whose values are ordered by a total preorder on their keys.
pub trait SortKey: Sized {
    /// Whether `a` may stand before `b`.
    spec fn key_le(a: Self, b: Self) -> bool;

    proof fn lemma_key_le_total(a: Self, b: Self)
        ensures
            Self::key_le(a, b) || Self::key_le(b, a),
    ;

    proof fn lemma_key_le_trans(a: Self, b: Self, c: Self)
        requires
            Self::key_le(a, b),
            Self::key_le(b, c),
        ensures
            Self::key_le(a, c),
    ;

    fn key_le_exec(&self, other: &Self) -> (r: bool)
        ensures
            r == Self::key_le(*self, *other),
    ;
}

/// Whether `s` is ordered by its keys.
pub open spec fn sorted_by_key<T: SortKey>(s: Seq<T>) -> bool {
    forall|i: int, j: int| 0 <= i < j < s.len() ==> T::key_le(s[i], s[j])
}

proof fn lemma_insert_multiset<T>(s: Seq<T>, pos: int, x: T)
    requires
        0 <= pos <= s.len(),
    ensures
        s.insert(pos, x).to_multiset() =~= s.to_multiset().insert(x),
{
    let t = s.insert(pos, x);
    s.insert_ensures(pos, x);
    assert(t.remove(pos) =~= s);
    assert(t.remove(pos).to_multiset() =~= t.to_multiset().remove(t[pos]));
    assert(t.to_multiset().count(x) > 0) by {
        assert(t.contains(x));
    }
}

proof fn lemma_insert_sorted<T: SortKey>(s: Seq<T>, pos: int, x: T)
    requires
        0 <= pos <= s.len(),
        sorted_by_key(s),
        forall|i: int| 0 <= i < pos ==> T::key_le(#[trigger] s[i], x),
        pos < s.len() ==> T::key_le(x, s[pos]),
    ensures
        sorted_by_key(s.insert(pos, x)),
{
    let t = s.insert(pos, x);
    s.insert_ensures(pos, x);
    assert forall|i: int, j: int| 0 <= i < j < t.len() implies T::key_le(t[i], t[j]) by {
        if j < pos {
            assert(t[i] == s[i] && t[j] == s[j]);
        } else if j == pos {
            assert(t[i] == s[i]);
        } else if i == pos {
            assert(t[j] == s[j - 1]);
            if j - 1 > pos {
                T::lemma_key_le_trans(x, s[pos], s[j - 1]);
            }
        } else if i < pos {
            assert(t[i] == s[i] && t[j] == s[j - 1]);
        } else {
            assert(t[i] == s[i - 1] && t[j] == s[j - 1]);
        }
    }
}

/// Whether two values have equal keys: each may stand before the other.
pub open spec fn same_key<T: SortKey>(a: T, b: T) -> bool {
    T::key_le(a, b) && T::key_le(b, a)
}

/// Holds of the values whose key equals that of `x`.
pub open spec fn keyed_as<T: SortKey>(x: T) -> spec_fn(T) -> bool {
    |e: T| same_key(e, x)
}

/// Whether `r` keeps the values of `v` that have equal keys in the order they
/// have in `v`, and holds no others of that key: for every key, the values of
/// `r` with that key are those of `v`, in the same order.
pub open spec fn keeps_order_of_equal_keys<T: SortKey>(r: Seq<T>, v: Seq<T>) -> bool {
    forall|x: T| #[trigger] r.filter(keyed_as(x)) == v.filter(keyed_as(x))
}

proof fn lemma_filter_none<T>(s: Seq<T>, p: spec_fn(T) -> bool)
    requires
        forall|k: int| 0 <= k < s.len() ==> !p(#[trigger] s[k]),
    ensures
        s.filter(p) == Seq::<T>::empty(),
{
    broadcast use vstd::seq_lib::group_filter_ensures;

    if s.filter(p).len() > 0 {
        s.lemma_filter_pred(p, 0);
        assert(s.filter(p).contains(s.filter(p)[0]));
        s.lemma_filter_contains_rev(p, s.filter(p)[0]);
    }
    assert(s.filter(p) =~= Seq::<T>::empty());
}

proof fn lemma_insert_keeps_key_order<T: SortKey>(s: Seq<T>, pos: int, x: T, z: T)
    requires
        0 <= pos <= s.len(),
        sorted_by_key(s),
        forall|i: int| 0 <= i < pos ==> T::key_le(#[trigger] s[i], x),
        pos < s.len() ==> !T::key_le(s[pos], x),
    ensures
        s.insert(pos, x).filter(keyed_as(z)) == if same_key(x, z) {
            s.filter(keyed_as(z)).push(x)
        } else {
            s.filter(keyed_as(z))
        },
{
    let p = keyed_as(z);
    let a = s.take(pos);
    let b = s.skip(pos);
    assert(s =~= a + b);
    assert(s.insert(pos, x) =~= a.push(x) + b);
    Seq::filter_distributes_over_add(a.push(x), b, p);
    Seq::filter_distributes_over_add(a, b, p);
    a.lemma_filter_push(x, p);
    if same_key(x, z) {
        assert forall|k: int| 0 <= k < b.len() implies !p(#[trigger] b[k]) by {
            assert(b[k] == s[pos + k]);
            if T::key_le(b[k], x) {
                if k > 0 {
                    T::lemma_key_le_trans(s[pos], s[pos + k], x);
                }
            }
            if same_key(b[k], z) {
                T::lemma_key_le_trans(b[k], z, x);
            }
        }
        lemma_filter_none(b, p);
        assert(s.filter(p) =~= a.filter(p));
        assert(s.insert(pos, x).filter(p) =~= a.filter(p).push(x));
    } else {
        assert(s.insert(pos, x).filter(p) =~= s.filter(p));
    }
}

/// Sorts by key, keeping values with equal keys in their input order: the
/// result is ordered by key and, for every key, holds the input's values of
/// that key in the order they came.
pub fn sort_by_key<T: SortKey>(v: Vec<T>) -> (r: Vec<T>)
    ensures
        sorted_by_key(r@),
        keeps_order_of_equal_keys(r@, v@),
        r@.to_multiset() == v@.to_multiset(),
        r@.len() == v@.len(),
{
    let ghost orig = v@;
    let mut rest = v;
    let mut out: Vec<T> = Vec::new();
    let ghost mut taken: int = 0;
    proof {
        assert(orig.skip(0) =~= orig);
        assert forall|z: T| #[trigger] out@.filter(keyed_as(z)) == orig.take(0).filter(keyed_as(z)) by {
            lemma_filter_none(out@, keyed_as(z));
            lemma_filter_none(orig.take(0), keyed_as(z));
        }
    }
    while rest.len() > 0
        invariant
            0 <= taken <= orig.len(),
            rest@ == orig.skip(taken),
            sorted_by_key(out@),
            out@.to_multiset().add(rest@.to_multiset()) == orig.to_multiset(),
            keeps_order_of_equal_keys(out@, orig.take(taken)),
        decreases rest.len(),
    {
        let ghost before_rest = rest@;
        let x = rest.remove(0);
        proof {
            assert(before_rest =~= seq![x] + rest@);
            assert(rest@ =~= orig.skip(taken + 1));
            assert(orig.take(taken + 1) =~= orig.take(taken).push(x));
        }
        let mut pos: usize = 0;
        while pos < out.len() && out[pos].key_le_exec(&x)
            invariant
                pos <= out.len(),
                forall|i: int| 0 <= i < pos ==> T::key_le(#[trigger] out@[i], x),
            decreases out.len() - pos,
        {
            pos = pos + 1;
        }
        let ghost old_out = out@;
        proof {
            if pos < out.len() {
                T::lemma_key_le_total(old_out[pos as int], x);
            }
        }
        out.insert(pos, x);
        proof {
            lemma_insert_multiset(old_out, pos as int, x);
            lemma_insert_sorted(old_out, pos as int, x);
            assert((seq![x] + rest@).to_multiset() =~= rest@.to_multiset().insert(x)) by {
                assert(seq![x] + rest@ =~= rest@.insert(0, x));
                lemma_insert_multiset(rest@, 0, x);
            }
            assert(out@.to_multiset().add(rest@.to_multiset()) =~= orig.to_multiset());
            assert forall|z: T| #[trigger] out@.filter(keyed_as(z)) == orig.take(taken + 1).filter(
                keyed_as(z),
            ) by {
                lemma_insert_keeps_key_order(old_out, pos as int, x, z);
                orig.take(taken).lemma_filter_push(x, keyed_as(z));
                assert(old_out.filter(keyed_as(z)) == orig.take(taken).filter(keyed_as(z)));
            }
            taken = taken + 1;
        }
    }
    proof {
        assert(rest@.to_multiset() =~= Multiset::empty());
        assert(out@.to_multiset() =~= orig.to_multiset());
        assert(out@.len() == out@.to_multiset().len());
        assert(orig.skip(taken).len() == 0);
        assert(orig.take(taken) =~= orig);
    }
    out
}

/// Strings are ordered by their characters.
impl SortKey for String {
    open spec fn key_le(a: String, b: String) -> bool {
        !seq_lt(b@, a@)
    }

    proof fn lemma_key_le_total(a: String, b: String) {
        lemma_lt_asym(a@, b@);
    }

    proof fn lemma_key_le_trans(a: String, b: String, c: String) {
        lemma_lt_total(a@, b@);
        lemma_lt_total(b@, c@);
        if seq_lt(a@, b@) && seq_lt(b@, c@) {
            lemma_lt_trans(a@, b@, c@);
        }
        lemma_lt_asym(a@, c@);
        lemma_lt_asym(a@, b@);
    }

    fn key_le_exec(&self, other: &String) -> (r: bool) {
        match compare_str(self.as_str(), other.as_str()) {
            LexOrder::Greater => false,
            _ => true,
        }
    }
}

} // verus!
