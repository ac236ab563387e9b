use vstd::prelude::*;
use crate::error::StoreError;
use crate::models::{Bookmark, BookmarkView, UpdateBookmarkRequest, apply_update,
    apply_update_spec, bookmark_matches};
use crate::object_id::{assigned_id, id_well_formed, lemma_dec_digits_injective,
    lemma_dec_digits_wf, lemma_u64_below_pow10_24, make_id};
use crate::store_model::{contains_id, insert_desc, lemma_insert_desc_at, lemma_lookup_absent,
    lemma_lookup_at, lemma_remove_first_absent, lemma_remove_first_at, lemma_search_filter_push,
    lemma_update_first_absent, lemma_update_first_at, lemma_update_first_empty, lookup, opt_view,
    page_of, remove_first, search_filter, seq_view, store_inv, update_first, with_id};

verus! {

/// The store: bookmark records kept sorted by creation time, newest first,
/// with a counter from which fresh identifiers are assigned.
pub struct BookmarkRepository {
    records: Vec<Bookmark>,
    next_id: u64,
}

impl View for BookmarkRepository {
    type V = Seq<BookmarkView>;

    closed spec fn view(&self) -> Seq<BookmarkView> {
        seq_view(self.records@)
    }
}

impl BookmarkRepository {
    /// Holds of every repository the library hands out: the contents obey
    /// the store invariant, and every assigned identifier came from a
    /// counter value below the next one.
    pub closed spec fn inv(&self) -> bool {
        &&& store_inv(self@)
        &&& forall|i: int|
            0 <= i < self@.len() ==> exists|c: nat|
                c < self.next_id && (#[trigger] self@[i]).id == Some(assigned_id(c))
    }

    /// True while the store can still assign a fresh identifier; only a
    /// store in which it fails has creation owe an error.
    pub closed spec fn can_assign(&self) -> bool {
        self.next_id < u64::MAX
    }

    /// The invariant constrains the visible contents.
    pub proof fn lemma_inv_store(&self)
        requires
            self.inv(),
        ensures
            store_inv(self@),
    {
    }

    /// An empty store.
    pub fn new() -> (r: Self)
        ensures
            r.inv(),
            r.can_assign(),
            r@ == Seq::<BookmarkView>::empty(),
    {
        let r = BookmarkRepository { records: Vec::new(), next_id: 0 };
        proof {
            assert(r@ =~= Seq::<BookmarkView>::empty());
        }
        r
    }

    /// The first index holding this identifier, if any.
    fn index_of(&self, id: &String) -> (r: Option<usize>)
        ensures
            match r {
                Some(i) => i < self@.len() && self@[i as int].id == Some(id@) && forall|j: int|
                    0 <= j < i ==> (#[trigger] self@[j]).id != Some(id@),
                None => forall|j: int|
                    0 <= j < self@.len() ==> (#[trigger] self@[j]).id != Some(id@),
            },
    {
        let mut i: usize = 0;
        while i < self.records.len()
            invariant
                i <= self.records.len(),
                forall|j: int| 0 <= j < i ==> (#[trigger] self@[j]).id != Some(id@),
            decreases self.records.len() - i,
        {
            let hit = match &self.records[i].id {
                Option::Some(s) => s.eq(id),
                Option::None => false,
            };
            if hit {
                proof {
                    assert(self@[i as int].id == Some(id@));
                }
                return Some(i);
            }
            proof {
                assert(self@[i as int].id != Some(id@));
            }
            i = i + 1;
        }
        None
    }

    /// Looks a record up by identifier; an absent identifier is an empty
    /// result, not an error.
    pub fn find_by_id(&self, id: &str) -> (r: Result<Option<Bookmark>, StoreError>)
        ensures
            r matches Ok(o) && opt_view(o) == lookup(self@, id@),
    {
        let target = String::from_str(id);
        match self.index_of(&target) {
            Option::Some(i) => {
                proof {
                    lemma_lookup_at(self@, id@, i as int);
                }
                Ok(Some(self.records[i].clone()))
            },
            Option::None => {
                proof {
                    lemma_lookup_absent(self@, id@);
                }
                Ok(None)
            },
        }
    }

    /// All records, newest first.
    pub fn find_all(&self) -> (r: Result<Vec<Bookmark>, StoreError>)
        ensures
            r matches Ok(v) && seq_view(v@) == self@,
    {
        let mut out: Vec<Bookmark> = Vec::new();
        let mut i: usize = 0;
        while i < self.records.len()
            invariant
                i <= self.records.len(),
                out@.len() == i,
                seq_view(out@) =~= self@.take(i as int),
            decreases self.records.len() - i,
        {
            let ghost pre = seq_view(out@);
            let c = self.records[i].clone();
            let ghost cv = c@;
            out.push(c);
            i = i + 1;
            proof {
                assert(out@.len() == i);
                assert forall|j: int| 0 <= j < i implies seq_view(out@)[j] == self@.take(
                    i as int,
                )[j] by {
                    if j < i - 1 {
                        assert(seq_view(out@)[j] == pre[j]);
                        assert(pre[j] == self@.take(i - 1)[j]);
                    } else {
                        assert(seq_view(out@)[j] == cv);
                        assert(cv == self@[j]);
                    }
                }
                assert(seq_view(out@) =~= self@.take(i as int));
            }
        }
        proof {
            assert(seq_view(out@) =~= self@);
        }
        Ok(out)
    }

    /// Inserts a record, ignoring whatever identifier the argument carries:
    /// the store assigns a fresh, well-formed one. The record is placed so
    /// that the store stays sorted newest first. Fails only when the
    /// identifier supply is exhausted.
    pub fn create(&mut self, bookmark: Bookmark) -> (r: Result<Bookmark, StoreError>)
        requires
            old(self).inv(),
        ensures
            final(self).inv(),
            old(self).can_assign() ==> r is Ok,
            r matches Ok(b) ==> b@.id is Some && {
                let i = b@.id->0;
                &&& id_well_formed(i)
                &&& !contains_id(old(self)@, i)
                &&& b@ == with_id(bookmark@, i)
                &&& final(self)@ == insert_desc(old(self)@, b@)
            },
            r is Err ==> final(self)@ == old(self)@ && !old(self).can_assign(),
    {
        if self.next_id == u64::MAX {
            return Err(StoreError { detail: String::from_str("identifier supply exhausted") });
        }
        let id_string = make_id(self.next_id);
        proof {
            lemma_dec_digits_wf(self.next_id as nat, 24);
            assert(!contains_id(self@, id_string@)) by {
                if contains_id(self@, id_string@) {
                    let i = choose|i: int|
                        0 <= i < self@.len() && (#[trigger] self@[i]).id == Some(id_string@);
                    assert(exists|c: nat|
                        c < self.next_id && self@[i].id == Some(assigned_id(c)));
                    let c = choose|c: nat| c < self.next_id && self@[i].id == Some(assigned_id(c));
                    lemma_u64_below_pow10_24(self.next_id);
                    lemma_dec_digits_injective(c, self.next_id as nat, 24);
                }
            }
        }
        let created_at = bookmark.created_at;
        let new_b = Bookmark {
            id: Some(id_string),
            url: bookmark.url,
            title: bookmark.title,
            tags: bookmark.tags,
            created_at,
            read: bookmark.read,
        };
        let mut idx: usize = 0;
        while idx < self.records.len() && self.records[idx].created_at > created_at
            invariant
                idx <= self.records.len(),
                forall|j: int| 0 <= j < idx ==> (#[trigger] self@[j]).created_at > created_at,
            decreases self.records.len() - idx,
        {
            idx = idx + 1;
        }
        let ghost pre = self@;
        let ghost prev_next = self.next_id;
        let b_clone = new_b.clone();
        self.records.insert(idx, b_clone);
        self.next_id = self.next_id + 1;
        proof {
            let bv = new_b@;
            let ns = self@;
            assert(ns =~= pre.take(idx as int) + seq![bv] + pre.skip(idx as int)) by {
                assert forall|k: int| 0 <= k < ns.len() implies ns[k] == (pre.take(idx as int)
                    + seq![bv] + pre.skip(idx as int))[k] by {
                    assert(self.records@ == old(self).records@.insert(idx as int, b_clone));
                }
            }
            lemma_insert_desc_at(pre, bv, idx as int);
            // the store invariant holds of the new contents
            assert forall|p: int, q: int| 0 <= p < q < ns.len() implies ns[p].created_at
                >= ns[q].created_at && ns[p].id != ns[q].id by {
                let pv = if p < idx { pre[p] } else if p == idx { bv } else { pre[p - 1] };
                let qv = if q < idx { pre[q] } else if q == idx { bv } else { pre[q - 1] };
                assert(ns[p] == pv);
                assert(ns[q] == qv);
                if p == idx {
                    assert(qv == pre[q - 1]);
                    assert(pre[q - 1].created_at <= bv.created_at);
                    assert(contains_id(pre, bv.id->0) == false);
                    assert(pre[q - 1].id != bv.id);
                }
                if q == idx {
                    assert(pre[p].id != bv.id);
                }
            }
            assert forall|p: int| 0 <= p < ns.len() implies (#[trigger] ns[p]).id is Some
                && id_well_formed(ns[p].id->0) && exists|c: nat|
                c < self.next_id && ns[p].id == Some(assigned_id(c)) by {
                if p == idx {
                    assert(ns[p] == bv);
                    assert(bv.id == Some(assigned_id(prev_next as nat)));
                    assert(prev_next < self.next_id && ns[p].id == Some(
                        assigned_id(prev_next as nat),
                    ));
                } else {
                    let po = if p < idx { p } else { p - 1 };
                    assert(ns[p] == pre[po]);
                    let c = choose|c: nat| c < prev_next && pre[po].id == Some(assigned_id(c));
                    assert(c < self.next_id && ns[p].id == Some(assigned_id(c)));
                }
            }
        }
        Ok(new_b)
    }

    /// Applies a partial update to the record with this identifier, returning
    /// the record as the store then holds it; an update that sets no field is
    /// a no-op; an absent identifier is an empty result.
    pub fn update(&mut self, id: &str, request: UpdateBookmarkRequest) -> (r: Result<
        Option<Bookmark>,
        StoreError,
    >)
        requires
            old(self).inv(),
        ensures
            final(self).inv(),
            final(self).can_assign() == old(self).can_assign(),
            final(self)@ == update_first(old(self)@, id@, request@),
            r matches Ok(o) && opt_view(o) == match lookup(old(self)@, id@) {
                Some(b) => Some(apply_update_spec(b, request@)),
                None => None::<BookmarkView>,
            },
    {
        let has_fields = request.url.is_some() || request.title.is_some()
            || request.tags.is_some() || request.read.is_some();
        if !has_fields {
            let found = self.find_by_id(id);
            proof {
                lemma_update_first_empty(self@, id@, request@);
                if lookup(self@, id@) is Some {
                    let b = lookup(self@, id@)->0;
                    assert(apply_update_spec(b, request@) =~= b);
                }
            }
            return found;
        }
        let target = String::from_str(id);
        match self.index_of(&target) {
            Option::None => {
                proof {
                    lemma_lookup_absent(self@, id@);
                    lemma_update_first_absent(self@, id@, request@);
                }
                Ok(None)
            },
            Option::Some(i) => {
                let updated = apply_update(&self.records[i], &request);
                let ghost pre = self@;
                let u_clone = updated.clone();
                self.records.remove(i);
                self.records.insert(i, u_clone);
                proof {
                    let ns = self@;
                    let av = apply_update_spec(pre[i as int], request@);
                    assert(ns =~= pre.update(i as int, av)) by {
                        assert forall|k: int| 0 <= k < ns.len() implies ns[k] == pre.update(
                            i as int,
                            av,
                        )[k] by {
                            assert(self.records@ == old(self).records@.remove(i as int).insert(
                                i as int,
                                u_clone,
                            ));
                        }
                    }
                    lemma_update_first_at(pre, id@, request@, i as int);
                    lemma_lookup_at(pre, id@, i as int);
                    // the update keeps the identifier and the creation time,
                    // so the store invariant is untouched
                    assert forall|p: int| 0 <= p < ns.len() implies (#[trigger] ns[p]).id
                        == pre[p].id && ns[p].created_at == pre[p].created_at by {}
                    assert forall|p: int| 0 <= p < ns.len() implies (#[trigger] ns[p]).id is Some
                        && id_well_formed(ns[p].id->0) && exists|c: nat|
                        c < self.next_id && ns[p].id == Some(assigned_id(c)) by {
                        let c = choose|c: nat| c < self.next_id && pre[p].id == Some(
                            assigned_id(c),
                        );
                        assert(c < self.next_id && ns[p].id == Some(assigned_id(c)));
                    }
                    assert forall|p: int, q: int| 0 <= p < q < ns.len() implies ns[p].created_at
                        >= ns[q].created_at && ns[p].id != ns[q].id by {
                        assert(pre[p].created_at >= pre[q].created_at);
                        assert(pre[p].id != pre[q].id);
                    }
                }
                Ok(Some(updated))
            },
        }
    }

    /// Deletes the record with this identifier, reporting whether one was
    /// removed.
    pub fn delete(&mut self, id: &str) -> (r: Result<bool, StoreError>)
        requires
            old(self).inv(),
        ensures
            final(self).inv(),
            final(self).can_assign() == old(self).can_assign(),
            final(self)@ == remove_first(old(self)@, id@),
            r matches Ok(d) && d == contains_id(old(self)@, id@),
    {
        let target = String::from_str(id);
        match self.index_of(&target) {
            Option::None => {
                proof {
                    lemma_remove_first_absent(self@, id@);
                }
                Ok(false)
            },
            Option::Some(i) => {
                let ghost pre = self@;
                self.records.remove(i);
                proof {
                    let ns = self@;
                    assert(pre[i as int].id == Some(id@));
                    assert(contains_id(pre, id@));
                    lemma_remove_first_at(pre, id@, i as int);
                    assert(ns =~= pre.remove(i as int)) by {
                        assert forall|k: int| 0 <= k < ns.len() implies ns[k] == pre.remove(
                            i as int,
                        )[k] by {
                            assert(self.records@ == old(self).records@.remove(i as int));
                        }
                    }
                    assert forall|p: int, q: int| 0 <= p < q < ns.len() implies ns[p].created_at
                        >= ns[q].created_at && ns[p].id != ns[q].id by {
                        let po = if p < i { p } else { p + 1 };
                        let qo = if q < i { q } else { q + 1 };
                        assert(ns[p] == pre[po]);
                        assert(ns[q] == pre[qo]);
                    }
                    assert forall|p: int| 0 <= p < ns.len() implies (#[trigger] ns[p]).id is Some
                        && id_well_formed(ns[p].id->0) && exists|c: nat|
                        c < self.next_id && ns[p].id == Some(assigned_id(c)) by {
                        let po = if p < i { p } else { p + 1 };
                        assert(ns[p] == pre[po]);
                        let c = choose|c: nat| c < self.next_id && pre[po].id == Some(
                            assigned_id(c),
                        );
                        assert(c < self.next_id && ns[p].id == Some(assigned_id(c)));
                    }
                }
                Ok(true)
            },
        }
    }

    /// A filtered page of the store: the records passing the tag and unread
    /// filters, newest first, with the first `page * size` of them passed
    /// over and at most `size` kept.
    pub fn search(&self, tag: Option<&str>, unread_only: bool, page: u32, size: u32) -> (r: Result<
        Vec<Bookmark>,
        StoreError,
    >)
        ensures
            r matches Ok(v) && seq_view(v@) == page_of(
                search_filter(self@, tag.deep_view(), unread_only),
                page as int * size as int,
                size as int,
            ),
    {
        let tag_owned: Option<String> = match tag {
            Option::Some(t) => Option::Some(String::from_str(t)),
            Option::None => Option::None,
        };
        let ghost tv = tag.deep_view();
        let tag_ref: Option<&String> = match &tag_owned {
            Option::Some(t) => Option::Some(t),
            Option::None => Option::None,
        };
        proof {
            assert(tag_ref.deep_view() == tv);
        }
        proof {
            assert((page as nat) * (size as nat) < 0x10000000000000000) by (nonlinear_arith)
                requires
                    page as nat <= 0xffffffffnat,
                    size as nat <= 0xffffffffnat,
            ;
        }
        let skip_u: u64 = (page as u64) * (size as u64);
        let ghost skip = page as int * size as int;
        let size_u: usize = size as usize;
        let mut out: Vec<Bookmark> = Vec::new();
        let mut seen: u64 = 0;
        let mut i: usize = 0;
        while i < self.records.len()
            invariant
                i <= self.records.len(),
                skip == skip_u as int,
                tv == tag_ref.deep_view(),
                size_u as int == size as int,
                seen as int == search_filter(self@.take(i as int), tv, unread_only).len(),
                seen <= i as u64,
                seq_view(out@) == page_of(
                    search_filter(self@.take(i as int), tv, unread_only),
                    skip,
                    size as int,
                ),
            decreases self.records.len() - i,
        {
            let ghost fpre = search_filter(self@.take(i as int), tv, unread_only);
            let ghost opre = seq_view(out@);
            let ghost bv = self@[i as int];
            let b_matches = bookmark_matches(&self.records[i], tag_ref, unread_only);
            if b_matches {
                if seen >= skip_u && out.len() < size_u {
                    out.push(self.records[i].clone());
                }
                seen = seen + 1;
            }
            i = i + 1;
            proof {
                assert(self@.take(i as int) =~= self@.take(i - 1).push(bv));
                lemma_search_filter_push(self@.take(i - 1), tv, unread_only, bv);
                let fnew = search_filter(self@.take(i as int), tv, unread_only);
                if b_matches {
                    assert(fnew == fpre.push(bv));
                    let n = fpre.len();
                    if n < skip {
                        assert(page_of(fnew, skip, size as int) =~= Seq::<BookmarkView>::empty());
                        assert(seq_view(out@) =~= page_of(fnew, skip, size as int));
                    } else if opre.len() < size as int {
                        assert(page_of(fpre, skip, size as int) == fpre.subrange(skip, n as int));
                        assert(n < skip + size);
                        assert(seq_view(out@) =~= opre.push(bv)) by {
                            assert forall|k: int| 0 <= k < seq_view(out@).len() implies seq_view(
                                out@,
                            )[k] == opre.push(bv)[k] by {
                                if k < opre.len() {
                                    assert(seq_view(out@)[k] == opre[k]);
                                }
                            }
                        }
                        assert(page_of(fnew, skip, size as int) =~= page_of(
                            fpre,
                            skip,
                            size as int,
                        ).push(bv));
                    } else {
                        assert(n - skip >= size as int);
                        assert(page_of(fnew, skip, size as int) =~= page_of(
                            fpre,
                            skip,
                            size as int,
                        ));
                    }
                } else {
                    assert(fnew == fpre);
                }
            }
        }
        proof {
            assert(self@.take(self.records.len() as int) =~= self@);
        }
        Ok(out)
    }
}

} // verus!
