//! Bringing the filters attached to a song in line with the filters named in
//! its file's tags: which names are wanted, which links go and which come.
use vstd::prelude::*;
use crate::filter::Filter;
use crate::manager::{contains_string, first_occurrences};
use crate::metadata::{kept_names, names_of};
use crate::song_filter::SongFilter;
use crate::text::{chars_of, string_of, string_views, strings_equal, trim_chars};

verus! {

/// The filter names a song's tags ask for: trimmed, without empty ones, each
/// once at its first occurrence.
pub open spec fn desired_names_of(filters: Seq<Filter>) -> Seq<Seq<char>> {
    first_occurrences(kept_names(names_of(filters)))
}

/// The names of the filters read from a song's tags, trimmed, without empty
/// ones, each once.
pub fn desired_filter_names(metadata_filters: &[Filter]) -> (r: Vec<String>)
    ensures
        string_views(r@) == desired_names_of(metadata_filters@),
{
    let mut kept: Vec<String> = Vec::new();
    let mut i: usize = 0;
    while i < metadata_filters.len()
        invariant
            i <= metadata_filters.len(),
            string_views(kept@) == kept_names(names_of(metadata_filters@).take(i as int)),
        decreases metadata_filters.len() - i,
    {
        proof {
            let p = names_of(metadata_filters@).take(i + 1);
            assert(p.drop_last() =~= names_of(metadata_filters@).take(i as int));
            assert(p.last() == metadata_filters@[i as int].name@);
        }
        let t = trim_chars(&chars_of(metadata_filters[i].name.as_str()));
        if t.len() > 0 {
            let ghost before = string_views(kept@);
            kept.push(string_of(&t));
            assert(string_views(kept@) =~= before.push(t@));
        }
        i = i + 1;
    }
    assert(names_of(metadata_filters@).take(metadata_filters.len() as int) =~= names_of(
        metadata_filters@,
    ));
    let mut out: Vec<String> = Vec::new();
    let mut k: usize = 0;
    while k < kept.len()
        invariant
            k <= kept.len(),
            string_views(out@) == first_occurrences(string_views(kept@).take(k as int)),
        decreases kept.len() - k,
    {
        proof {
            let p = string_views(kept@).take(k + 1);
            assert(p.drop_last() =~= string_views(kept@).take(k as int));
            assert(p.last() == kept@[k as int]@);
        }
        if !contains_string(&out, &kept[k]) {
            let ghost before = string_views(out@);
            out.push(kept[k].clone());
            assert(string_views(out@) =~= before.push(kept@[k as int]@));
        }
        k = k + 1;
    }
    assert(string_views(kept@).take(kept.len() as int) =~= string_views(kept@));
    out
}

/// The id a map from name to filter, filled from the filters in order, holds
/// for `name`: that of the last filter with that name.
pub open spec fn filter_id_named(filters: Seq<Filter>, name: Seq<char>) -> Option<i32>
    decreases filters.len(),
{
    if filters.len() == 0 {
        None
    } else if filters.last().name@ == name {
        Some(filters.last().id)
    } else {
        filter_id_named(filters.drop_last(), name)
    }
}

/// The id of the known filter with this name, if there is one.
pub fn filter_id_by_name(known: &[Filter], name: &String) -> (r: Option<i32>)
    ensures
        r == filter_id_named(known@, name@),
{
    let mut i = known.len();
    assert(known@.take(i as int) =~= known@);
    while i > 0
        invariant
            i <= known.len(),
            filter_id_named(known@, name@) == filter_id_named(known@.take(i as int), name@),
        decreases i,
    {
        let ghost prefix = known@.take(i as int);
        if strings_equal(&known[i - 1].name, name) {
            return Some(known[i - 1].id);
        }
        i = i - 1;
        assert(prefix.drop_last() =~= known@.take(i as int));
    }
    None
}

/// Whether some link of the song points at this filter.
pub open spec fn has_filter(links: Seq<SongFilter>, filter_id: i32) -> bool {
    exists|k: int| 0 <= k < links.len() && (#[trigger] links[k]).filter_id == filter_id
}

/// The ids of the links whose filter is no longer wanted, in link order.
pub open spec fn links_to_remove(links: Seq<SongFilter>, desired: Seq<i32>) -> Seq<i32>
    decreases links.len(),
{
    if links.len() == 0 {
        Seq::empty()
    } else {
        let rest = links_to_remove(links.drop_last(), desired);
        if desired.contains(links.last().filter_id) {
            rest
        } else {
            rest.push(links.last().id)
        }
    }
}

/// The wanted filters the song has no link to yet, each once, in the order
/// they are wanted.
pub open spec fn filters_to_add(links: Seq<SongFilter>, desired: Seq<i32>) -> Seq<i32>
    decreases desired.len(),
{
    if desired.len() == 0 {
        Seq::empty()
    } else {
        let rest = filters_to_add(links, desired.drop_last());
        let f = desired.last();
        if has_filter(links, f) || rest.contains(f) {
            rest
        } else {
            rest.push(f)
        }
    }
}

/// The links to remove and the filters to link so that a song's filters are
/// the wanted ones.
#[derive(Debug, Clone, PartialEq, Eq)]
pub struct SongFilterSyncPlan {
    pub remove_song_filter_ids: Vec<i32>,
    pub add_filter_ids: Vec<i32>,
}

impl SongFilterSyncPlan {
    /// Whether carrying the plan out changes anything.
    pub fn changes(&self) -> (r: bool)
        ensures
            r == (self.remove_song_filter_ids@.len() > 0 || self.add_filter_ids@.len() > 0),
    {
        self.remove_song_filter_ids.len() > 0 || self.add_filter_ids.len() > 0
    }
}

fn contains_id(v: &Vec<i32>, x: i32) -> (r: bool)
    ensures
        r == v@.contains(x),
{
    let mut i: usize = 0;
    while i < v.len()
        invariant
            i <= v.len(),
            forall|j: int| 0 <= j < i ==> v@[j] != x,
        decreases v.len() - i,
    {
        if v[i] == x {
            assert(v@[i as int] == x);
            return true;
        }
        i = i + 1;
    }
    false
}

fn has_filter_exec(links: &[SongFilter], filter_id: i32) -> (r: bool)
    ensures
        r == has_filter(links@, filter_id),
{
    let mut k: usize = 0;
    while k < links.len()
        invariant
            k <= links.len(),
            forall|j: int| 0 <= j < k ==> (#[trigger] links@[j]).filter_id != filter_id,
        decreases links.len() - k,
    {
        if links[k].filter_id == filter_id {
            return true;
        }
        k = k + 1;
    }
    false
}

/// What it takes to bring a song's links in line with the wanted filters:
/// remove each link to an unwanted filter, and link each wanted filter the
/// song lacks.
pub fn plan_song_filter_sync(existing: &[SongFilter], desired_filter_ids: &Vec<i32>) -> (r:
    SongFilterSyncPlan)
    ensures
        r.remove_song_filter_ids@ == links_to_remove(existing@, desired_filter_ids@),
        r.add_filter_ids@ == filters_to_add(existing@, desired_filter_ids@),
{
    let mut remove: Vec<i32> = Vec::new();
    let mut i: usize = 0;
    while i < existing.len()
        invariant
            i <= existing.len(),
            remove@ == links_to_remove(existing@.take(i as int), desired_filter_ids@),
        decreases existing.len() - i,
    {
        proof {
            assert(existing@.take(i + 1).drop_last() =~= existing@.take(i as int));
        }
        if !contains_id(desired_filter_ids, existing[i].filter_id) {
            remove.push(existing[i].id);
        }
        i = i + 1;
    }
    assert(existing@.take(existing.len() as int) =~= existing@);
    let mut add: Vec<i32> = Vec::new();
    let mut k: usize = 0;
    while k < desired_filter_ids.len()
        invariant
            k <= desired_filter_ids.len(),
            add@ == filters_to_add(existing@, desired_filter_ids@.take(k as int)),
        decreases desired_filter_ids.len() - k,
    {
        proof {
            assert(desired_filter_ids@.take(k + 1).drop_last() =~= desired_filter_ids@.take(
                k as int,
            ));
        }
        let f = desired_filter_ids[k];
        if !has_filter_exec(existing, f) && !contains_id(&add, f) {
            add.push(f);
        }
        k = k + 1;
    }
    assert(desired_filter_ids@.take(desired_filter_ids.len() as int) =~= desired_filter_ids@);
    SongFilterSyncPlan { remove_song_filter_ids: remove, add_filter_ids: add }
}

/// The filters to link are wanted ones the song lacks, each once; together
/// with the links that stay they are exactly the wanted filters.
pub proof fn lemma_sync_yields_desired_filters(links: Seq<SongFilter>, desired: Seq<i32>)
    ensures
        filters_to_add(links, desired).no_duplicates(),
        forall|f: i32| #[trigger]
            filters_to_add(links, desired).contains(f) ==> desired.contains(f) && !has_filter(
                links,
                f,
            ),
        forall|f: i32|
            desired.contains(f) <==> ((has_filter(links, f) && desired.contains(f))
                || #[trigger] filters_to_add(links, desired).contains(f)),
    decreases desired.len(),
{
    if desired.len() > 0 {
        let init = desired.drop_last();
        lemma_sync_yields_desired_filters(links, init);
        let rest = filters_to_add(links, init);
        let x = desired.last();
        assert(desired =~= init.push(x));
        assert forall|f: i32| #[trigger] filters_to_add(links, desired).contains(f) implies desired.contains(f)
            && !has_filter(links, f) by {
            if rest.contains(f) {
                assert(init.contains(f));
                let j = choose|j: int| 0 <= j < init.len() && init[j] == f;
                assert(desired[j] == f);
            } else {
                assert(f == x);
                assert(desired[desired.len() - 1] == f);
            }
        }
        assert forall|f: i32|
            desired.contains(f) <==> ((has_filter(links, f) && desired.contains(f))
                || #[trigger] filters_to_add(links, desired).contains(f)) by {
            if desired.contains(f) && !has_filter(links, f) {
                let j = choose|j: int| 0 <= j < desired.len() && desired[j] == f;
                if j < desired.len() - 1 {
                    assert(init[j] == f);
                    assert(init.contains(f));
                    assert(rest.contains(f));
                    let m = choose|m: int| 0 <= m < rest.len() && rest[m] == f;
                    if !(has_filter(links, x) || rest.contains(x)) {
                        assert(rest.push(x)[m] == f);
                    }
                } else {
                    assert(f == x);
                    if !rest.contains(x) {
                        assert(rest.push(x)[rest.len() as int] == f);
                    }
                }
            }
        }
        if !(has_filter(links, x) || rest.contains(x)) {
            assert forall|a: int, b: int|
                0 <= a < b < rest.push(x).len() implies rest.push(x)[a] != rest.push(x)[b] by {
                if b == rest.len() {
                    assert(rest.contains(rest[a]));
                }
            }
        }
    }
}

/// Exactly the links to unwanted filters are removed: every link whose filter
/// is not wanted has its id among the removed ones, and every removed id is
/// that of a link whose filter is not wanted.
pub proof fn lemma_removes_exactly_unwanted_links(links: Seq<SongFilter>, desired: Seq<i32>)
    ensures
        forall|k: int|
            0 <= k < links.len() && !desired.contains(#[trigger] links[k].filter_id)
                ==> links_to_remove(links, desired).contains(links[k].id),
        forall|x: i32|
            #[trigger] links_to_remove(links, desired).contains(x) ==> exists|k: int|
                0 <= k < links.len() && links[k].id == x && !desired.contains(links[k].filter_id),
        links_to_remove(links, desired).len() <= links.len(),
    decreases links.len(),
{
    if links.len() > 0 {
        let init = links.drop_last();
        lemma_removes_exactly_unwanted_links(init, desired);
        let rest = links_to_remove(init, desired);
        let l = links.last();
        let out = links_to_remove(links, desired);
        assert forall|k: int|
            0 <= k < links.len() && !desired.contains(#[trigger] links[k].filter_id)
                implies out.contains(links[k].id) by {
            if k < links.len() - 1 {
                assert(links[k] == init[k]);
                assert(rest.contains(init[k].id));
                let m = choose|m: int| 0 <= m < rest.len() && rest[m] == init[k].id;
                if !desired.contains(l.filter_id) {
                    assert(rest.push(l.id)[m] == links[k].id);
                }
            } else {
                assert(links[k] == l);
                assert(rest.push(l.id)[rest.len() as int] == l.id);
            }
        }
        assert forall|x: i32| #[trigger] out.contains(x) implies exists|k: int|
            0 <= k < links.len() && links[k].id == x && !desired.contains(links[k].filter_id) by {
            let m = choose|m: int| 0 <= m < out.len() && out[m] == x;
            if m < rest.len() {
                assert(rest[m] == x);
                assert(rest.contains(x));
                let k = choose|k: int|
                    0 <= k < init.len() && init[k].id == x && !desired.contains(init[k].filter_id);
                assert(links[k] == init[k]);
            } else {
                assert(links[links.len() - 1] == l);
            }
        }
    }
}

} // verus!
