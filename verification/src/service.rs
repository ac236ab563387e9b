use vstd::prelude::*;
use crate::error::AppError;
use crate::models::{Bookmark, BookmarkView, CreateBookmarkRequest, UpdateBookmarkRequest,
    apply_update_spec};
use crate::object_id::{check_id, id_well_formed};
use crate::repository::BookmarkRepository;
use crate::store_model::{contains_id, insert_desc, lemma_create_then_get, lemma_delete_then_get,
    lemma_lookup_props, lemma_update_first_absent, lookup, page_of, remove_first, search_filter,
    seq_view, update_first};

verus! {

/// The service in front of the store: it validates identifier strings before
/// the store is consulted, applies the creation defaults, and turns empty
/// results into the not-found error.
pub struct BookmarkService {
    repository: BookmarkRepository,
}

impl View for BookmarkService {
    type V = Seq<BookmarkView>;

    closed spec fn view(&self) -> Seq<BookmarkView> {
        self.repository@
    }
}

/// The record a creation request gives rise to: URL, title and tags copied
/// verbatim, the given clock value as creation time, the read flag false,
/// and no identifier yet — the store assigns one.
pub fn creation_record(request: CreateBookmarkRequest, now_ms: i64) -> (b: Bookmark)
    ensures
        b@ == (BookmarkView {
            id: None,
            url: request@.url,
            title: request@.title,
            tags: request@.tags,
            created_at: now_ms as int,
            read: false,
        }),
{
    let b = Bookmark {
        id: None,
        url: request.url,
        title: request.title,
        tags: request.tags,
        created_at: now_ms,
        read: false,
    };
    proof {
        assert(b@ =~= BookmarkView {
            id: None,
            url: request@.url,
            title: request@.title,
            tags: request@.tags,
            created_at: now_ms as int,
            read: false,
        });
    }
    b
}

/// Turns the store's optional record into the service's result: a found
/// record passes through, an empty result is the not-found error.
pub fn require_found(o: Option<Bookmark>) -> (r: Result<Bookmark, AppError>)
    ensures
        o is Some ==> (r matches Ok(b) && b@ == o->0@),
        o is None ==> (r matches Err(e) && e is NotFound),
{
    match o {
        Option::Some(b) => Ok(b),
        Option::None => Err(AppError::NotFound),
    }
}

/// Turns the store's deletion report into the service's result: nothing
/// removed is the not-found error.
pub fn require_deleted(deleted: bool) -> (r: Result<(), AppError>)
    ensures
        deleted ==> r is Ok,
        !deleted ==> (r matches Err(e) && e is NotFound),
{
    if deleted {
        Ok(())
    } else {
        Err(AppError::NotFound)
    }
}

impl BookmarkService {
    /// Holds of every service the library hands out.
    pub closed spec fn inv(&self) -> bool {
        self.repository.inv()
    }

    /// True while the store behind the service can still assign a fresh
    /// identifier; only then is creation owed a record.
    pub closed spec fn can_create(&self) -> bool {
        self.repository.can_assign()
    }

    /// The invariant constrains the visible contents: sorted newest first,
    /// identifiers unique and well-formed.
    pub proof fn lemma_inv_store(&self)
        requires
            self.inv(),
        ensures
            crate::store_model::store_inv(self@),
    {
        self.repository.lemma_inv_store();
    }

    /// A service over a given store.
    pub fn new(repository: BookmarkRepository) -> (r: Self)
        requires
            repository.inv(),
        ensures
            r.inv(),
            r.can_create() == repository.can_assign(),
            r@ == repository@,
    {
        BookmarkService { repository }
    }

    /// A filtered, paginated listing, newest first.
    pub fn list(&self, tag: Option<&str>, unread_only: bool, page: u32, size: u32) -> (r: Result<
        Vec<Bookmark>,
        AppError,
    >)
        ensures
            r matches Ok(v) && seq_view(v@) == page_of(
                search_filter(self@, tag.deep_view(), unread_only),
                page as int * size as int,
                size as int,
            ),
    {
        match self.repository.search(tag, unread_only, page, size) {
            Ok(v) => Ok(v),
            Err(e) => Err(AppError::DatabaseError(e)),
        }
    }

    /// Fetches a record by its identifier string. A malformed identifier is
    /// rejected before the store is consulted; a well-formed identifier that
    /// no record carries is not-found.
    pub fn get(&self, id: &str) -> (r: Result<Bookmark, AppError>)
        ensures
            !id_well_formed(id@) ==> (r matches Err(e) && e is InvalidId),
            id_well_formed(id@) && lookup(self@, id@) is None ==> (r matches Err(e)
                && e is NotFound),
            id_well_formed(id@) && lookup(self@, id@) is Some ==> (r matches Ok(b) && Some(b@)
                == lookup(self@, id@)),
    {
        if !check_id(id) {
            return Err(AppError::InvalidId);
        }
        match self.repository.find_by_id(id) {
            Ok(o) => require_found(o),
            Err(e) => Err(AppError::DatabaseError(e)),
        }
    }

    /// Creates a record from a request: URL, title and tags are taken
    /// verbatim, the creation time is the given current time in milliseconds,
    /// the read flag starts false, and the store assigns a fresh, non-empty
    /// identifier, under which the record is immediately found again.
    pub fn create(&mut self, request: CreateBookmarkRequest, now_ms: i64) -> (r: Result<
        Bookmark,
        AppError,
    >)
        requires
            old(self).inv(),
        ensures
            final(self).inv(),
            old(self).can_create() ==> r is Ok,
            r matches Ok(b) ==> (b@.id is Some && {
                let i = b@.id->0;
                &&& id_well_formed(i) && i.len() == 24
                &&& !contains_id(old(self)@, i)
                &&& b@ == (BookmarkView {
                    id: Some(i),
                    url: request@.url,
                    title: request@.title,
                    tags: request@.tags,
                    created_at: now_ms as int,
                    read: false,
                })
                &&& final(self)@ == insert_desc(old(self)@, b@)
                &&& lookup(final(self)@, i) == Some(b@)
            }),
            r is Err ==> final(self)@ == old(self)@ && !old(self).can_create() && (
            r matches Err(e) ==> e is DatabaseError),
    {
        let bookmark = creation_record(request, now_ms);
        match self.repository.create(bookmark) {
            Ok(b) => {
                proof {
                    lemma_create_then_get(old(self)@, b@);
                    assert(b@ =~= BookmarkView {
                        id: b@.id,
                        url: request@.url,
                        title: request@.title,
                        tags: request@.tags,
                        created_at: now_ms as int,
                        read: false,
                    });
                }
                Ok(b)
            },
            Err(e) => Err(AppError::DatabaseError(e)),
        }
    }

    /// Applies a partial update to the record with this identifier and
    /// returns the record as the store holds it afterwards. A malformed
    /// identifier is rejected before the store is consulted; a well-formed
    /// identifier that no record carries is not-found, and the store is left
    /// unchanged.
    pub fn update(&mut self, id: &str, request: UpdateBookmarkRequest) -> (r: Result<
        Bookmark,
        AppError,
    >)
        requires
            old(self).inv(),
        ensures
            final(self).inv(),
            final(self).can_create() == old(self).can_create(),
            !id_well_formed(id@) ==> (r matches Err(e) && e is InvalidId && final(self)@ == old(
                self,
            )@),
            id_well_formed(id@) && lookup(old(self)@, id@) is None ==> (r matches Err(e)
                && e is NotFound && final(self)@ == old(self)@),
            id_well_formed(id@) && lookup(old(self)@, id@) is Some ==> (r matches Ok(b) && b@
                == apply_update_spec(lookup(old(self)@, id@)->0, request@) && final(self)@
                == update_first(old(self)@, id@, request@)),
    {
        if !check_id(id) {
            return Err(AppError::InvalidId);
        }
        let ghost pre = self@;
        match self.repository.update(id, request) {
            Ok(o) => {
                proof {
                    if o is None {
                        lemma_lookup_props(pre, id@);
                        assert forall|j: int| 0 <= j < pre.len() implies (#[trigger] pre[j]).id
                            != Some(id@) by {
                            if pre[j].id == Some(id@) {
                                assert(contains_id(pre, id@));
                            }
                        }
                        lemma_update_first_absent(pre, id@, request@);
                    }
                }
                require_found(o)
            },
            Err(e) => Err(AppError::DatabaseError(e)),
        }
    }

    /// Deletes the record with this identifier. A malformed identifier is
    /// rejected before the store is consulted; a well-formed identifier that
    /// no record carries is not-found. After a successful delete the
    /// identifier is no longer found.
    pub fn delete(&mut self, id: &str) -> (r: Result<(), AppError>)
        requires
            old(self).inv(),
        ensures
            final(self).inv(),
            final(self).can_create() == old(self).can_create(),
            !id_well_formed(id@) ==> (r matches Err(e) && e is InvalidId && final(self)@ == old(
                self,
            )@),
            id_well_formed(id@) ==> final(self)@ == remove_first(old(self)@, id@),
            id_well_formed(id@) && !contains_id(old(self)@, id@) ==> (r matches Err(e)
                && e is NotFound),
            id_well_formed(id@) && contains_id(old(self)@, id@) ==> r is Ok && lookup(
                final(self)@,
                id@,
            ) is None,
    {
        if !check_id(id) {
            return Err(AppError::InvalidId);
        }
        proof {
            self.repository.lemma_inv_store();
            lemma_delete_then_get(self@, id@);
        }
        match self.repository.delete(id) {
            Ok(d) => require_deleted(d),
            Err(e) => Err(AppError::DatabaseError(e)),
        }
    }
}

} // verus!
