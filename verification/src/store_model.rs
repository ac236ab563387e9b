//! The mathematical model of the document store: a sequence of bookmark
//! records, newest first, and the effect of each store operation on it.

use vstd::prelude::*;
use crate::models::{Bookmark, BookmarkView, UpdateRequestView, apply_update_spec, matches_search};

verus! {

/// The views of a sequence of records.
pub open spec fn seq_view(s: Seq<Bookmark>) -> Seq<BookmarkView> {
    s.map_values(|b: Bookmark| b@)
}

/// The view of an optional record.
pub open spec fn opt_view(o: Option<Bookmark>) -> Option<BookmarkView> {
    match o {
        Option::Some(b) => Option::Some(b@),
        Option::None => Option::None,
    }
}

/// The same record under a given identifier.
pub open spec fn with_id(b: BookmarkView, id: Seq<char>) -> BookmarkView {
    BookmarkView {
        id: Some(id),
        url: b.url,
        title: b.title,
        tags: b.tags,
        created_at: b.created_at,
        read: b.read,
    }
}

/// True when some record in the store carries this identifier.
pub open spec fn contains_id(s: Seq<BookmarkView>, id: Seq<char>) -> bool {
    exists|i: int| 0 <= i < s.len() && (#[trigger] s[i]).id == Some(id)
}

/// The first record with this identifier, if any.
pub open spec fn lookup(s: Seq<BookmarkView>, id: Seq<char>) -> Option<BookmarkView>
    decreases s.len(),
{
    if s.len() == 0 {
        None
    } else if s[0].id == Some(id) {
        Some(s[0])
    } else {
        lookup(s.drop_first(), id)
    }
}

/// The store after a partial update of the record with this identifier; the
/// store unchanged when no record carries it.
pub open spec fn update_first(s: Seq<BookmarkView>, id: Seq<char>, u: UpdateRequestView) -> Seq<
    BookmarkView,
>
    decreases s.len(),
{
    if s.len() == 0 {
        s
    } else if s[0].id == Some(id) {
        seq![apply_update_spec(s[0], u)] + s.drop_first()
    } else {
        seq![s[0]] + update_first(s.drop_first(), id, u)
    }
}

/// The store after deleting the record with this identifier; the store
/// unchanged when no record carries it.
pub open spec fn remove_first(s: Seq<BookmarkView>, id: Seq<char>) -> Seq<BookmarkView>
    decreases s.len(),
{
    if s.len() == 0 {
        s
    } else if s[0].id == Some(id) {
        s.drop_first()
    } else {
        seq![s[0]] + remove_first(s.drop_first(), id)
    }
}

/// The store after inserting a record, placed before the first record whose
/// creation time is not newer, so that the store stays sorted newest first.
pub open spec fn insert_desc(s: Seq<BookmarkView>, b: BookmarkView) -> Seq<BookmarkView>
    decreases s.len(),
{
    if s.len() == 0 {
        seq![b]
    } else if s[0].created_at <= b.created_at {
        seq![b] + s
    } else {
        seq![s[0]] + insert_desc(s.drop_first(), b)
    }
}

/// The records that pass the search filter, in store order.
pub open spec fn search_filter(
    s: Seq<BookmarkView>,
    tag: Option<Seq<char>>,
    unread_only: bool,
) -> Seq<BookmarkView>
    decreases s.len(),
{
    if s.len() == 0 {
        Seq::empty()
    } else {
        let rest = search_filter(s.drop_last(), tag, unread_only);
        if matches_search(s.last(), tag, unread_only) {
            rest.push(s.last())
        } else {
            rest
        }
    }
}

/// One page of a listing: `skip` records are passed over and at most `size`
/// are kept.
pub open spec fn page_of(s: Seq<BookmarkView>, skip: int, size: int) -> Seq<BookmarkView>
    recommends
        skip >= 0,
        size >= 0,
{
    if skip >= s.len() {
        Seq::empty()
    } else if skip + size <= s.len() {
        s.subrange(skip, skip + size)
    } else {
        s.subrange(skip, s.len() as int)
    }
}

/// Sorted by creation time, newest first.
pub open spec fn sorted_desc(s: Seq<BookmarkView>) -> bool {
    forall|i: int, j: int|
        0 <= i < j < s.len() ==> (#[trigger] s[i]).created_at >= (#[trigger] s[j]).created_at
}

/// No two records share an identifier.
pub open spec fn unique_ids(s: Seq<BookmarkView>) -> bool {
    forall|i: int, j: int| 0 <= i < j < s.len() ==> (#[trigger] s[i]).id != (#[trigger] s[j]).id
}

/// Every persisted record carries a well-formed identifier.
pub open spec fn ids_assigned(s: Seq<BookmarkView>) -> bool {
    forall|i: int|
        0 <= i < s.len() ==> (#[trigger] s[i]).id is Some && crate::object_id::id_well_formed(
            s[i].id->0,
        )
}

/// The invariant of the store's contents.
pub open spec fn store_inv(s: Seq<BookmarkView>) -> bool {
    sorted_desc(s) && unique_ids(s) && ids_assigned(s)
}

/// `lookup` finds the record at the first index carrying the identifier.
pub proof fn lemma_lookup_at(s: Seq<BookmarkView>, id: Seq<char>, i: int)
    requires
        0 <= i < s.len(),
        s[i].id == Some(id),
        forall|j: int| 0 <= j < i ==> (#[trigger] s[j]).id != Some(id),
    ensures
        lookup(s, id) == Some(s[i]),
    decreases i,
{
    if i > 0 {
        lemma_lookup_at(s.drop_first(), id, i - 1);
    }
}

/// `lookup` finds nothing when no record carries the identifier.
pub proof fn lemma_lookup_absent(s: Seq<BookmarkView>, id: Seq<char>)
    requires
        forall|j: int| 0 <= j < s.len() ==> (#[trigger] s[j]).id != Some(id),
    ensures
        lookup(s, id) is None,
    decreases s.len(),
{
    if s.len() > 0 {
        lemma_lookup_absent(s.drop_first(), id);
    }
}

/// What `lookup` returns carries the identifier it was asked for, and it
/// succeeds exactly on the identifiers present in the store.
pub proof fn lemma_lookup_props(s: Seq<BookmarkView>, id: Seq<char>)
    ensures
        lookup(s, id) is Some <==> contains_id(s, id),
        lookup(s, id) matches Some(b) ==> b.id == Some(id) && exists|i: int|
            0 <= i < s.len() && s[i] == b,
    decreases s.len(),
{
    if s.len() > 0 {
        lemma_lookup_props(s.drop_first(), id);
        if s[0].id == Some(id) {
        } else {
            if contains_id(s, id) {
                let i = choose|i: int| 0 <= i < s.len() && (#[trigger] s[i]).id == Some(id);
                assert(s.drop_first()[i - 1].id == Some(id));
                assert(contains_id(s.drop_first(), id));
            }
            if lookup(s, id) is Some {
                let b = lookup(s, id)->0;
                let i = choose|i: int| 0 <= i < s.drop_first().len() && s.drop_first()[i] == b;
                assert(s[i + 1] == b);
            }
            if contains_id(s.drop_first(), id) {
                let i = choose|i: int|
                    0 <= i < s.drop_first().len() && (#[trigger] s.drop_first()[i]).id == Some(id);
                assert(s[i + 1].id == Some(id));
            }
        }
    }
}

/// `update_first` rewrites exactly the first index carrying the identifier.
pub proof fn lemma_update_first_at(s: Seq<BookmarkView>, id: Seq<char>, u: UpdateRequestView, i: int)
    requires
        0 <= i < s.len(),
        s[i].id == Some(id),
        forall|j: int| 0 <= j < i ==> (#[trigger] s[j]).id != Some(id),
    ensures
        update_first(s, id, u) == s.update(i, apply_update_spec(s[i], u)),
    decreases i,
{
    if i == 0 {
        assert(update_first(s, id, u) =~= s.update(0, apply_update_spec(s[0], u)));
    } else {
        lemma_update_first_at(s.drop_first(), id, u, i - 1);
        assert(update_first(s, id, u) =~= s.update(i, apply_update_spec(s[i], u)));
    }
}

/// `update_first` leaves the store unchanged when the identifier is absent.
pub proof fn lemma_update_first_absent(s: Seq<BookmarkView>, id: Seq<char>, u: UpdateRequestView)
    requires
        forall|j: int| 0 <= j < s.len() ==> (#[trigger] s[j]).id != Some(id),
    ensures
        update_first(s, id, u) == s,
    decreases s.len(),
{
    if s.len() > 0 {
        lemma_update_first_absent(s.drop_first(), id, u);
        assert(update_first(s, id, u) =~= s);
    }
}

/// An update that sets no field leaves every record, and so the store,
/// unchanged.
pub proof fn lemma_update_first_empty(s: Seq<BookmarkView>, id: Seq<char>, u: UpdateRequestView)
    requires
        crate::models::empty_update(u),
    ensures
        update_first(s, id, u) == s,
    decreases s.len(),
{
    if s.len() > 0 {
        lemma_update_first_empty(s.drop_first(), id, u);
        if s[0].id == Some(id) {
            assert(apply_update_spec(s[0], u) =~= s[0]);
        }
        assert(update_first(s, id, u) =~= s);
    }
}

/// `remove_first` removes exactly the first index carrying the identifier.
pub proof fn lemma_remove_first_at(s: Seq<BookmarkView>, id: Seq<char>, i: int)
    requires
        0 <= i < s.len(),
        s[i].id == Some(id),
        forall|j: int| 0 <= j < i ==> (#[trigger] s[j]).id != Some(id),
    ensures
        remove_first(s, id) == s.remove(i),
    decreases i,
{
    if i == 0 {
        assert(remove_first(s, id) =~= s.remove(0));
    } else {
        lemma_remove_first_at(s.drop_first(), id, i - 1);
        assert(remove_first(s, id) =~= s.remove(i));
    }
}

/// `remove_first` leaves the store unchanged when the identifier is absent.
pub proof fn lemma_remove_first_absent(s: Seq<BookmarkView>, id: Seq<char>)
    requires
        forall|j: int| 0 <= j < s.len() ==> (#[trigger] s[j]).id != Some(id),
    ensures
        remove_first(s, id) == s,
    decreases s.len(),
{
    if s.len() > 0 {
        lemma_remove_first_absent(s.drop_first(), id);
        assert(remove_first(s, id) =~= s);
    }
}

/// `insert_desc` places the new record at the boundary index: after the
/// strictly newer records, before the rest.
pub proof fn lemma_insert_desc_at(s: Seq<BookmarkView>, b: BookmarkView, i: int)
    requires
        0 <= i <= s.len(),
        forall|j: int| 0 <= j < i ==> (#[trigger] s[j]).created_at > b.created_at,
        i < s.len() ==> s[i].created_at <= b.created_at,
    ensures
        insert_desc(s, b) == s.take(i) + seq![b] + s.skip(i),
    decreases i,
{
    if i == 0 {
        assert(insert_desc(s, b) =~= s.take(0) + seq![b] + s.skip(0));
    } else {
        lemma_insert_desc_at(s.drop_first(), b, i - 1);
        assert(insert_desc(s, b) =~= s.take(i) + seq![b] + s.skip(i));
    }
}

/// Appending one record to the store extends the filtered listing exactly
/// when the record passes the filter.
pub proof fn lemma_search_filter_push(
    s: Seq<BookmarkView>,
    tag: Option<Seq<char>>,
    unread_only: bool,
    b: BookmarkView,
)
    ensures
        search_filter(s.push(b), tag, unread_only) == if matches_search(b, tag, unread_only) {
            search_filter(s, tag, unread_only).push(b)
        } else {
            search_filter(s, tag, unread_only)
        },
{
    assert(s.push(b).drop_last() =~= s);
    assert(s.push(b).last() == b);
}

/// Every record of a filtered listing passes the filter, and comes from the
/// store.
pub proof fn lemma_search_filter_matches(
    s: Seq<BookmarkView>,
    tag: Option<Seq<char>>,
    unread_only: bool,
)
    ensures
        forall|k: int|
            0 <= k < search_filter(s, tag, unread_only).len() ==> matches_search(
                #[trigger] search_filter(s, tag, unread_only)[k],
                tag,
                unread_only,
            ) && s.contains(search_filter(s, tag, unread_only)[k]),
    decreases s.len(),
{
    if s.len() > 0 {
        lemma_search_filter_matches(s.drop_last(), tag, unread_only);
        assert forall|k: int| 0 <= k < search_filter(s, tag, unread_only).len() implies matches_search(
            #[trigger] search_filter(s, tag, unread_only)[k],
            tag,
            unread_only,
        ) && s.contains(search_filter(s, tag, unread_only)[k]) by {
            let f = search_filter(s, tag, unread_only);
            let fr = search_filter(s.drop_last(), tag, unread_only);
            if k < fr.len() {
                assert(f[k] == fr[k]);
                let m = choose|m: int| 0 <= m < s.drop_last().len() && s.drop_last()[m] == fr[k];
                assert(s[m] == fr[k]);
            } else {
                assert(f[k] == s.last());
                assert(s[s.len() - 1] == s.last());
            }
        }
    }
}

/// Round trip: a record freshly inserted into the store is found again under
/// the identifier it was inserted with, unchanged.
pub proof fn lemma_create_then_get(s: Seq<BookmarkView>, b: BookmarkView)
    requires
        b.id is Some,
        !contains_id(s, b.id->0),
    ensures
        lookup(insert_desc(s, b), b.id->0) == Some(b),
    decreases s.len(),
{
    let id = b.id->0;
    if s.len() == 0 {
        assert(insert_desc(s, b)[0] == b);
    } else if s[0].created_at <= b.created_at {
        assert(insert_desc(s, b)[0] == b);
    } else {
        assert(s[0].id != Some(id));
        assert(!contains_id(s.drop_first(), id)) by {
            if contains_id(s.drop_first(), id) {
                let j = choose|j: int|
                    0 <= j < s.drop_first().len() && (#[trigger] s.drop_first()[j]).id == Some(id);
                assert(s[j + 1].id == Some(id));
            }
        }
        lemma_create_then_get(s.drop_first(), b);
        let r = insert_desc(s, b);
        assert(r[0] == s[0]);
        assert(r.drop_first() =~= insert_desc(s.drop_first(), b));
    }
}

/// After a delete, no record carries the deleted identifier any more, so a
/// following lookup finds nothing.
pub proof fn lemma_delete_then_get(s: Seq<BookmarkView>, id: Seq<char>)
    requires
        unique_ids(s),
    ensures
        !contains_id(remove_first(s, id), id),
        lookup(remove_first(s, id), id) is None,
    decreases s.len(),
{
    let r = remove_first(s, id);
    if s.len() == 0 {
    } else if s[0].id == Some(id) {
        assert(r =~= s.drop_first());
        assert(!contains_id(r, id)) by {
            if contains_id(r, id) {
                let j = choose|j: int| 0 <= j < r.len() && (#[trigger] r[j]).id == Some(id);
                assert(s[j + 1].id == Some(id));
                assert(s[0].id == s[j + 1].id);
            }
        }
    } else {
        assert(unique_ids(s.drop_first())) by {
            assert forall|p: int, q: int|
                0 <= p < q < s.drop_first().len() implies (#[trigger] s.drop_first()[p]).id != (
            #[trigger] s.drop_first()[q]).id by {
                assert(s.drop_first()[p] == s[p + 1]);
                assert(s.drop_first()[q] == s[q + 1]);
            }
        }
        lemma_delete_then_get(s.drop_first(), id);
        assert(r =~= seq![s[0]] + remove_first(s.drop_first(), id));
        assert(!contains_id(r, id)) by {
            if contains_id(r, id) {
                let j = choose|j: int| 0 <= j < r.len() && (#[trigger] r[j]).id == Some(id);
                if j == 0 {
                    assert(s[0].id == Some(id));
                } else {
                    assert(remove_first(s.drop_first(), id)[j - 1].id == Some(id));
                    assert(contains_id(remove_first(s.drop_first(), id), id));
                }
            }
        }
    }
    if contains_id(r, id) {
    } else {
        assert forall|j: int| 0 <= j < r.len() implies (#[trigger] r[j]).id != Some(id) by {
            if r[j].id == Some(id) {
                assert(contains_id(r, id));
            }
        }
        lemma_lookup_absent(r, id);
    }
}

/// An update that sets no field leaves a record exactly as it was.
pub proof fn lemma_empty_update_identity(b: BookmarkView, u: UpdateRequestView)
    requires
        crate::models::empty_update(u),
    ensures
        apply_update_spec(b, u) == b,
{
    assert(apply_update_spec(b, u) =~= b);
}

/// An update that sets only the read flag changes nothing else: identifier,
/// URL, title, tags and creation time all stay as they were.
pub proof fn lemma_read_only_update(b: BookmarkView, u: UpdateRequestView)
    requires
        u.url is None,
        u.title is None,
        u.tags is None,
    ensures
        apply_update_spec(b, u).id == b.id,
        apply_update_spec(b, u).url == b.url,
        apply_update_spec(b, u).title == b.title,
        apply_update_spec(b, u).tags == b.tags,
        apply_update_spec(b, u).created_at == b.created_at,
        u.read matches Some(x) ==> apply_update_spec(b, u).read == x,
        u.read is None ==> apply_update_spec(b, u).read == b.read,
{
}

/// Every record of a search page passes the filter, the page holds at most
/// `size` records, and its records are the filtered listing's records from
/// position `skip` on, in order.
pub proof fn lemma_search_page_matches(
    s: Seq<BookmarkView>,
    tag: Option<Seq<char>>,
    unread_only: bool,
    skip: int,
    size: int,
)
    requires
        skip >= 0,
        size >= 0,
    ensures
        page_of(search_filter(s, tag, unread_only), skip, size).len() <= size,
        forall|k: int|
            0 <= k < page_of(search_filter(s, tag, unread_only), skip, size).len()
                ==> matches_search(
                #[trigger] page_of(search_filter(s, tag, unread_only), skip, size)[k],
                tag,
                unread_only,
            ) && page_of(search_filter(s, tag, unread_only), skip, size)[k] == search_filter(
                s,
                tag,
                unread_only,
            )[skip + k],
{
    lemma_search_filter_matches(s, tag, unread_only);
}

} // verus!
