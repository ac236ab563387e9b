use vstd::prelude::*;

verus! {

/// Mathematical content of a bookmark record: every field as a plain
/// mathematical value. `id` is `None` only on a record that has not yet
/// been handed to the store.
#[verifier::ext_equal]
pub ghost struct BookmarkView {
    pub id: Option<Seq<char>>,
    pub url: Seq<char>,
    pub title: Seq<char>,
    pub tags: Seq<Seq<char>>,
    pub created_at: int,
    pub read: bool,
}

/// A bookmark record. The identifier is assigned by the store on creation
/// and never changes afterwards; `created_at` is a timestamp in
/// milliseconds since the Unix epoch, set once by the service.
#[derive(Debug)]
pub struct Bookmark {
    pub id: Option<String>,
    pub url: String,
    pub title: String,
    pub tags: Vec<String>,
    pub created_at: i64,
    pub read: bool,
}

impl View for Bookmark {
    type V = BookmarkView;

    open spec fn view(&self) -> BookmarkView {
        BookmarkView {
            id: match self.id {
                Option::Some(s) => Option::Some(s@),
                Option::None => Option::None,
            },
            url: self.url@,
            title: self.title@,
            tags: self.tags.deep_view(),
            created_at: self.created_at as int,
            read: self.read,
        }
    }
}

/// Copies a vector of strings, keeping its contents.
pub fn clone_strings(v: &Vec<String>) -> (r: Vec<String>)
    ensures
        r.deep_view() == v.deep_view(),
{
    let mut r: Vec<String> = Vec::new();
    let mut i: usize = 0;
    while i < v.len()
        invariant
            i <= v.len(),
            r.deep_view() =~= v.deep_view().take(i as int),
        decreases v.len() - i,
    {
        let ghost pre = r.deep_view();
        proof {
            assert(v.deep_view().len() == v@.len());
            assert(pre.len() == i as int);
            assert(r@.len() == i as int);
        }
        let c = v[i].clone();
        let ghost cv = c.deep_view();
        r.push(c);
        i = i + 1;
        proof {
            assert(r@.len() == i);
            assert forall|j: int| 0 <= j < i implies r.deep_view()[j] == v.deep_view().take(
                i as int,
            )[j] by {
                if j < i - 1 {
                    assert(r.deep_view()[j] == pre[j]);
                    assert(pre[j] == v.deep_view().take(i - 1)[j]);
                } else {
                    assert(r.deep_view()[j] == cv);
                    assert(cv == v.deep_view()[j]);
                }
            }
            assert(r.deep_view() =~= v.deep_view().take(i as int));
        }
    }
    proof {
        assert(r.deep_view() =~= v.deep_view());
    }
    r
}

impl Clone for Bookmark {
    fn clone(&self) -> (r: Self)
        ensures
            r@ == self@,
    {
        let r = Bookmark {
            id: match &self.id {
                Option::Some(s) => Option::Some(s.clone()),
                Option::None => Option::None,
            },
            url: self.url.clone(),
            title: self.title.clone(),
            tags: clone_strings(&self.tags),
            created_at: self.created_at,
            read: self.read,
        };
        proof {
            assert(r@ =~= self@);
        }
        r
    }
}

/// Mathematical content of a creation request.
#[verifier::ext_equal]
pub ghost struct CreateRequestView {
    pub url: Seq<char>,
    pub title: Seq<char>,
    pub tags: Seq<Seq<char>>,
}

/// What a client sends to create a bookmark. The identifier, the creation
/// timestamp and the read flag are never taken from the client.
pub struct CreateBookmarkRequest {
    pub url: String,
    pub title: String,
    pub tags: Vec<String>,
}

impl View for CreateBookmarkRequest {
    type V = CreateRequestView;

    open spec fn view(&self) -> CreateRequestView {
        CreateRequestView { url: self.url@, title: self.title@, tags: self.tags.deep_view() }
    }
}

/// Mathematical content of a partial update request.
#[verifier::ext_equal]
pub ghost struct UpdateRequestView {
    pub url: Option<Seq<char>>,
    pub title: Option<Seq<char>>,
    pub tags: Option<Seq<Seq<char>>>,
    pub read: Option<bool>,
}

/// What a client sends to update a bookmark: a present field replaces the
/// stored value, an absent field leaves it unchanged.
pub struct UpdateBookmarkRequest {
    pub url: Option<String>,
    pub title: Option<String>,
    pub tags: Option<Vec<String>>,
    pub read: Option<bool>,
}

impl View for UpdateBookmarkRequest {
    type V = UpdateRequestView;

    open spec fn view(&self) -> UpdateRequestView {
        UpdateRequestView {
            url: match self.url {
                Option::Some(s) => Option::Some(s@),
                Option::None => Option::None,
            },
            title: match self.title {
                Option::Some(s) => Option::Some(s@),
                Option::None => Option::None,
            },
            tags: match self.tags {
                Option::Some(v) => Option::Some(v.deep_view()),
                Option::None => Option::None,
            },
            read: self.read,
        }
    }
}

/// True when the update request sets no field at all.
pub open spec fn empty_update(u: UpdateRequestView) -> bool {
    u.url is None && u.title is None && u.tags is None && u.read is None
}

/// The record that results from applying a partial update: a present field
/// replaces the stored value, the identifier and the creation timestamp are
/// never touched.
pub open spec fn apply_update_spec(b: BookmarkView, u: UpdateRequestView) -> BookmarkView {
    BookmarkView {
        id: b.id,
        url: if u.url is Some { u.url->0 } else { b.url },
        title: if u.title is Some { u.title->0 } else { b.title },
        tags: if u.tags is Some { u.tags->0 } else { b.tags },
        created_at: b.created_at,
        read: if u.read is Some { u.read->0 } else { b.read },
    }
}

/// Builds the record that a partial update leaves behind.
pub fn apply_update(b: &Bookmark, request: &UpdateBookmarkRequest) -> (r: Bookmark)
    ensures
        r@ == apply_update_spec(b@, request@),
{
    let r = Bookmark {
        id: match &b.id {
            Option::Some(s) => Option::Some(s.clone()),
            Option::None => Option::None,
        },
        url: match &request.url {
            Option::Some(u) => u.clone(),
            Option::None => b.url.clone(),
        },
        title: match &request.title {
            Option::Some(t) => t.clone(),
            Option::None => b.title.clone(),
        },
        tags: match &request.tags {
            Option::Some(t) => clone_strings(t),
            Option::None => clone_strings(&b.tags),
        },
        created_at: b.created_at,
        read: match request.read {
            Option::Some(x) => x,
            Option::None => b.read,
        },
    };
    proof {
        assert(r@ =~= apply_update_spec(b@, request@));
    }
    r
}

/// Query parameters of a listing: an optional exact tag filter, an optional
/// unread-only filter, and zero-based pagination.
pub struct SearchParams {
    pub tag: Option<String>,
    pub unread_only: bool,
    pub page: u32,
    pub size: u32,
}

/// The page size used when a listing request names none.
pub fn default_size() -> (n: u32)
    ensures
        n == 20u32,
{
    20
}

/// True when a record passes the search filter: if a tag is given the record
/// carries it, and if only unread records are asked for the record is unread.
pub open spec fn matches_search(b: BookmarkView, tag: Option<Seq<char>>, unread_only: bool) -> bool {
    &&& (tag matches Some(t) ==> b.tags.contains(t))
    &&& (unread_only ==> !b.read)
}

/// Decides the search filter on a record.
pub fn bookmark_matches(b: &Bookmark, tag: Option<&String>, unread_only: bool) -> (r: bool)
    ensures
        r == matches_search(b@, tag.deep_view(), unread_only),
{
    if unread_only && b.read {
        return false;
    }
    match tag {
        Option::None => true,
        Option::Some(t) => {
            let mut i: usize = 0;
            let mut found = false;
            while i < b.tags.len()
                invariant
                    i <= b.tags.len(),
                    found == exists|j: int| 0 <= j < i && b.tags.deep_view()[j] == t@,
                decreases b.tags.len() - i,
            {
                if t.eq(&b.tags[i]) {
                    found = true;
                    proof {
                        assert(b.tags.deep_view()[i as int] == t@);
                    }
                } else {
                    proof {
                        assert(b.tags.deep_view()[i as int] != t@);
                    }
                }
                i = i + 1;
            }
            proof {
                assert(found == b@.tags.contains(t@));
            }
            found
        },
    }
}

} // verus!
