use vstd::prelude::*;
use crate::models::{CreateBookmarkRequest, CreateRequestView, UpdateBookmarkRequest,
    UpdateRequestView};

verus! {

/// A request body that has passed deserialization and field validation; the
/// single place where malformed bodies are rejected.
pub struct ValidatedJson<T>(pub T);

/// Whether a string is a syntactically valid URL, by the rule the validator
/// applies. The result is a function of the characters alone.
pub uninterp spec fn url_ok(s: Seq<char>) -> bool;

/// Relies on validator's `ValidateUrl::validate_url`, which for a string
/// slice is `url::Url::parse` succeeding on it: a pure check of the
/// characters alone.
#[verifier::external_body]
fn is_valid_url(s: &str) -> (r: bool)
    ensures
        r == url_ok(s@),
{
    validator::ValidateUrl::validate_url(s)
}

/// The comma-joined rendering of a list of "field: message" entries.
pub open spec fn join_comma(msgs: Seq<Seq<char>>) -> Seq<char>
    decreases msgs.len(),
{
    if msgs.len() == 0 {
        Seq::empty()
    } else if msgs.len() == 1 {
        msgs[0]
    } else {
        msgs[0] + ", "@ + join_comma(msgs.drop_first())
    }
}

/// Joining one more entry appends it after a comma.
pub proof fn lemma_join_comma_push(msgs: Seq<Seq<char>>, m: Seq<char>)
    ensures
        join_comma(msgs.push(m)) == if msgs.len() == 0 {
            m
        } else {
            join_comma(msgs) + ", "@ + m
        },
    decreases msgs.len(),
{
    let p = msgs.push(m);
    if msgs.len() == 0 {
        assert(p.len() == 1);
        assert(join_comma(p) == p[0]);
        assert(p[0] == m);
    } else {
        assert(p.drop_first() =~= msgs.drop_first().push(m));
        lemma_join_comma_push(msgs.drop_first(), m);
        if msgs.len() == 1 {
            assert(msgs.drop_first().len() == 0);
            assert(join_comma(p) == p[0] + ", "@ + join_comma(p.drop_first()));
            assert(join_comma(msgs) == msgs[0]);
            assert(p[0] == msgs[0]);
        } else {
            assert(join_comma(p) == p[0] + ", "@ + (join_comma(msgs.drop_first()) + ", "@ + m));
            assert(join_comma(msgs) + ", "@ + m == (msgs[0] + ", "@ + join_comma(
                msgs.drop_first(),
            )) + ", "@ + m);
            assert(p[0] + ", "@ + (join_comma(msgs.drop_first()) + ", "@ + m) =~= (msgs[0] + ", "@
                + join_comma(msgs.drop_first())) + ", "@ + m);
        }
    }
}

/// Renders the failing field rules as one string, one "field: message"
/// entry per failure, joined by commas.
pub fn format_validation_errors(entries: &Vec<&str>) -> (r: String)
    ensures
        r@ == join_comma(entries.deep_view()),
{
    let mut r = String::new();
    let mut i: usize = 0;
    while i < entries.len()
        invariant
            i <= entries.len(),
            r@ == join_comma(entries.deep_view().take(i as int)),
        decreases entries.len() - i,
    {
        let ghost pre = entries.deep_view().take(i as int);
        if i > 0 {
            r.append(", ");
        }
        r.append(entries[i]);
        i = i + 1;
        proof {
            lemma_join_comma_push(pre, entries.deep_view()[i - 1]);
            assert(pre.push(entries.deep_view()[i - 1]) =~= entries.deep_view().take(i as int));
            if pre.len() == 0 {
                assert(r@ =~= entries.deep_view()[i - 1]);
            } else {
                assert(r@ =~= join_comma(pre) + ", "@ + entries.deep_view()[i - 1]);
            }
        }
    }
    proof {
        assert(entries.deep_view().take(entries.len() as int) =~= entries.deep_view());
    }
    r
}

/// The validation rules of a creation request: a syntactically valid,
/// non-empty URL; a title of 1 to 200 characters; at most 10 tags.
pub open spec fn create_valid(r: CreateRequestView) -> bool {
    &&& url_ok(r.url)
    &&& 1 <= r.url.len()
    &&& 1 <= r.title.len() <= 200
    &&& r.tags.len() <= 10
}

/// The "field: message" entries of a failing creation request, one per
/// failing field rule, in field-rule order.
pub open spec fn create_error_entries(r: CreateRequestView) -> Seq<Seq<char>> {
    (if !url_ok(r.url) {
        seq!["url: Must be a valid URL"@]
    } else {
        Seq::empty()
    }) + (if r.url.len() < 1 {
        seq!["url: URL is required"@]
    } else {
        Seq::empty()
    }) + (if !(1 <= r.title.len() <= 200) {
        seq!["title: Title must be 1-200 characters"@]
    } else {
        Seq::empty()
    }) + (if r.tags.len() > 10 {
        seq!["tags: Maximum 10 tags allowed"@]
    } else {
        Seq::empty()
    })
}

/// Validates a creation request: accepts exactly the valid requests and
/// otherwise reports every failing field rule.
pub fn validate_create(req: &CreateBookmarkRequest) -> (r: Result<(), String>)
    ensures
        r is Ok <==> create_valid(req@),
        r matches Err(m) ==> m@ == join_comma(create_error_entries(req@)),
{
    let mut entries: Vec<&str> = Vec::new();
    if !is_valid_url(req.url.as_str()) {
        entries.push("url: Must be a valid URL");
    }
    if req.url.as_str().unicode_len() < 1 {
        entries.push("url: URL is required");
    }
    let title_len = req.title.as_str().unicode_len();
    if title_len < 1 || title_len > 200 {
        entries.push("title: Title must be 1-200 characters");
    }
    if req.tags.len() > 10 {
        entries.push("tags: Maximum 10 tags allowed");
    }
    proof {
        assert(entries.deep_view() =~= create_error_entries(req@));
    }
    if entries.len() == 0 {
        Ok(())
    } else {
        Err(format_validation_errors(&entries))
    }
}

/// The validation rules of a partial update: each present field obeys the
/// rule of the corresponding creation field; an absent field is not checked.
pub open spec fn update_valid(u: UpdateRequestView) -> bool {
    &&& (u.url matches Some(s) ==> url_ok(s))
    &&& (u.title matches Some(t) ==> 1 <= t.len() <= 200)
    &&& (u.tags matches Some(g) ==> g.len() <= 10)
}

/// The "field: message" entries of a failing update request.
pub open spec fn update_error_entries(u: UpdateRequestView) -> Seq<Seq<char>> {
    (if u.url is Some && !url_ok(u.url->0) {
        seq!["url: Must be a valid URL"@]
    } else {
        Seq::empty()
    }) + (if u.title is Some && !(1 <= (u.title->0).len() <= 200) {
        seq!["title: Title must be 1-200 characters"@]
    } else {
        Seq::empty()
    }) + (if u.tags is Some && (u.tags->0).len() > 10 {
        seq!["tags: Maximum 10 tags allowed"@]
    } else {
        Seq::empty()
    })
}

/// Validates an update request: accepts exactly the valid requests and
/// otherwise reports every failing field rule.
pub fn validate_update(req: &UpdateBookmarkRequest) -> (r: Result<(), String>)
    ensures
        r is Ok <==> update_valid(req@),
        r matches Err(m) ==> m@ == join_comma(update_error_entries(req@)),
{
    let mut entries: Vec<&str> = Vec::new();
    match &req.url {
        Option::Some(u) => {
            if !is_valid_url(u.as_str()) {
                entries.push("url: Must be a valid URL");
            }
        },
        Option::None => {},
    }
    match &req.title {
        Option::Some(t) => {
            let title_len = t.as_str().unicode_len();
            if title_len < 1 || title_len > 200 {
                entries.push("title: Title must be 1-200 characters");
            }
        },
        Option::None => {},
    }
    match &req.tags {
        Option::Some(g) => {
            if g.len() > 10 {
                entries.push("tags: Maximum 10 tags allowed");
            }
        },
        Option::None => {},
    }
    proof {
        assert(entries.deep_view() =~= update_error_entries(req@));
    }
    if entries.len() == 0 {
        Ok(())
    } else {
        Err(format_validation_errors(&entries))
    }
}

} // verus!
