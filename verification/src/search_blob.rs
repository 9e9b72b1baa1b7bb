//! The normalised search text kept for each song.
use vstd::prelude::*;
use crate::text::{
    chars_of, join, join_chars, lowercase_chars, lowercase_of, seqs_of, split_whitespace_chars,
    string_of, trim, trim_chars, words,
};

verus! {

/// A trimmed part that carries no search terms: empty, `0` or `-`.
pub open spec fn is_placeholder(t: Seq<char>) -> bool {
    t.len() == 0 || t == seq!['0'] || t == seq!['-']
}

/// The lower-cased words, with those that lower-case to nothing left out.
pub open spec fn lowered_words(ws: Seq<Seq<char>>) -> Seq<Seq<char>>
    decreases ws.len(),
{
    if ws.len() == 0 {
        Seq::empty()
    } else {
        let rest = lowered_words(ws.drop_last());
        let l = lowercase_of(ws.last());
        if l.len() > 0 {
            rest.push(l)
        } else {
            rest
        }
    }
}

/// The search terms one part contributes.
pub open spec fn part_terms(p: Seq<char>) -> Seq<Seq<char>> {
    let t = trim(p);
    if is_placeholder(t) {
        Seq::empty()
    } else {
        lowered_words(words(t))
    }
}

/// The search terms of all parts, in order.
pub open spec fn blob_terms(parts: Seq<Seq<char>>) -> Seq<Seq<char>>
    decreases parts.len(),
{
    if parts.len() == 0 {
        Seq::empty()
    } else {
        blob_terms(parts.drop_last()) + part_terms(parts.last())
    }
}

/// The views of a slice of string slices.
pub open spec fn str_views(parts: Seq<&str>) -> Seq<Seq<char>> {
    parts.map_values(|p: &str| p@)
}

/// The search blob of the given parts.
pub open spec fn search_blob_of(parts: Seq<Seq<char>>) -> Seq<char> {
    join(blob_terms(parts), ' ')
}

fn is_placeholder_chars(t: &Vec<char>) -> (b: bool)
    ensures
        b == is_placeholder(t@),
{
    if t.len() == 0 {
        true
    } else if t.len() == 1 && (t[0] == '0' || t[0] == '-') {
        assert(t@ =~= seq![t@[0]]);
        true
    } else {
        proof {
            if t.len() == 1 {
                assert(seq!['0'][0] == '0');
                assert(seq!['-'][0] == '-');
            }
        }
        false
    }
}

fn push_part_terms(terms: &mut Vec<Vec<char>>, part: &str)
    ensures
        seqs_of(final(terms)@) == seqs_of(old(terms)@) + part_terms(part@),
{
    let raw = chars_of(part);
    let t = trim_chars(&raw);
    if is_placeholder_chars(&t) {
        assert(seqs_of(terms@) =~= seqs_of(old(terms)@) + Seq::<Seq<char>>::empty());
        return;
    }
    let ws = split_whitespace_chars(&t);
    let mut i: usize = 0;
    while i < ws.len()
        invariant
            i <= ws.len(),
            seqs_of(ws@) == words(t@),
            seqs_of(terms@) == seqs_of(old(terms)@) + lowered_words(seqs_of(ws@).take(i as int)),
        decreases ws.len() - i,
    {
        let ghost before = seqs_of(terms@);
        let lw = lowercase_chars(&ws[i]);
        proof {
            let ti = seqs_of(ws@).take(i + 1);
            assert(ti.drop_last() =~= seqs_of(ws@).take(i as int));
            assert(ti.last() == ws@[i as int]@);
        }
        if lw.len() > 0 {
            terms.push(lw);
            assert(seqs_of(terms@) =~= before.push(lowercase_of(ws@[i as int]@)));
        }
        i = i + 1;
    }
    assert(seqs_of(ws@).take(ws.len() as int) =~= seqs_of(ws@));
}

/// Builds the search blob of the parts: each part is trimmed and skipped when it
/// is empty, `0` or `-`; otherwise its whitespace-separated words are
/// lower-cased and kept when not empty. All terms are joined with one space.
pub fn build_search_blob(parts: &[&str]) -> (r: String)
    ensures
        r@ == search_blob_of(str_views(parts@)),
{
    let mut terms: Vec<Vec<char>> = Vec::new();
    let mut i: usize = 0;
    while i < parts.len()
        invariant
            i <= parts.len(),
            seqs_of(terms@) == blob_terms(str_views(parts@).take(i as int)),
        decreases parts.len() - i,
    {
        proof {
            let pi = str_views(parts@).take(i + 1);
            assert(pi.drop_last() =~= str_views(parts@).take(i as int));
            assert(pi.last() == parts@[i as int]@);
        }
        push_part_terms(&mut terms, parts[i]);
        i = i + 1;
    }
    assert(str_views(parts@).take(parts.len() as int) =~= str_views(parts@));
    let joined = join_chars(&terms, ' ');
    string_of(&joined)
}

proof fn lemma_lowered_words_nonempty(ws: Seq<Seq<char>>)
    ensures
        forall|k: int| 0 <= k < lowered_words(ws).len() ==> (#[trigger] lowered_words(ws)[k]).len() > 0,
    decreases ws.len(),
{
    if ws.len() > 0 {
        lemma_lowered_words_nonempty(ws.drop_last());
        let rest = lowered_words(ws.drop_last());
        let l = lowercase_of(ws.last());
        if l.len() > 0 {
            assert forall|k: int| 0 <= k < rest.push(l).len() implies (#[trigger] rest.push(l)[k]).len() > 0 by {
                if k < rest.len() {
                    assert(rest.push(l)[k] == rest[k]);
                }
            }
        }
    }
}

proof fn lemma_blob_terms_concat(a: Seq<Seq<char>>, b: Seq<Seq<char>>)
    ensures
        blob_terms(a + b) == blob_terms(a) + blob_terms(b),
        forall|k: int| 0 <= k < blob_terms(a).len() ==> (#[trigger] blob_terms(a)[k]).len() > 0,
    decreases b.len(),
{
    if b.len() == 0 {
        assert(a + b =~= a);
        assert(blob_terms(a) + blob_terms(b) =~= blob_terms(a));
        lemma_blob_terms_nonempty(a);
    } else {
        lemma_blob_terms_concat(a, b.drop_last());
        assert((a + b).drop_last() =~= a + b.drop_last());
        assert((a + b).last() == b.last());
        assert(blob_terms(a + b) =~= blob_terms(a) + blob_terms(b));
    }
}

proof fn lemma_blob_terms_nonempty(a: Seq<Seq<char>>)
    ensures
        forall|k: int| 0 <= k < blob_terms(a).len() ==> (#[trigger] blob_terms(a)[k]).len() > 0,
    decreases a.len(),
{
    if a.len() > 0 {
        lemma_blob_terms_nonempty(a.drop_last());
        let t = trim(a.last());
        if !is_placeholder(t) {
            lemma_lowered_words_nonempty(words(t));
        }
        let x = blob_terms(a.drop_last());
        let y = part_terms(a.last());
        assert forall|k: int| 0 <= k < blob_terms(a).len() implies (#[trigger] blob_terms(a)[k]).len() > 0 by {
            if k < x.len() {
                assert(blob_terms(a)[k] == x[k]);
            } else {
                assert(blob_terms(a)[k] == y[k - x.len()]);
            }
        }
    }
}

proof fn lemma_join_nonempty(ws: Seq<Seq<char>>, sep: char)
    requires
        ws.len() > 0,
        ws[0].len() > 0,
    ensures
        join(ws, sep).len() > 0,
    decreases ws.len(),
{
    if ws.len() > 1 {
        lemma_join_nonempty(ws.drop_last(), sep);
    }
}

proof fn lemma_join_concat(x: Seq<Seq<char>>, y: Seq<Seq<char>>, sep: char)
    requires
        x.len() > 0,
        y.len() > 0,
    ensures
        join(x + y, sep) == join(x, sep).push(sep) + join(y, sep),
    decreases y.len(),
{
    if y.len() == 1 {
        assert((x + y).drop_last() =~= x);
        assert((x + y).last() == y[0]);
    } else {
        lemma_join_concat(x, y.drop_last(), sep);
        assert((x + y).drop_last() =~= x + y.drop_last());
        assert((x + y).last() == y.last());
        assert(join(x + y, sep) =~= join(x, sep).push(sep) + join(y, sep));
    }
}

/// The search blob of two runs of parts is the blob of the first and the
/// blob of the second joined by one space, or just the one that is not empty.
pub proof fn lemma_search_blob_of_concat(a: Seq<Seq<char>>, b: Seq<Seq<char>>)
    ensures
        search_blob_of(a + b) == if search_blob_of(a).len() == 0 {
            search_blob_of(b)
        } else if search_blob_of(b).len() == 0 {
            search_blob_of(a)
        } else {
            search_blob_of(a).push(' ') + search_blob_of(b)
        },
{
    lemma_blob_terms_concat(a, b);
    lemma_blob_terms_nonempty(a);
    lemma_blob_terms_nonempty(b);
    let x = blob_terms(a);
    let y = blob_terms(b);
    if x.len() > 0 {
        lemma_join_nonempty(x, ' ');
    }
    if y.len() > 0 {
        lemma_join_nonempty(y, ' ');
    }
    if x.len() == 0 {
        assert(x + y =~= y);
    } else if y.len() == 0 {
        assert(x + y =~= x);
    } else {
        lemma_join_concat(x, y, ' ');
    }
}

} // verus!
