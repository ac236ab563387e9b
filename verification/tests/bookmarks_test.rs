use bookmarks::error::{AppError, StoreError};
use bookmarks::models::{Bookmark, CreateBookmarkRequest, SearchParams, UpdateBookmarkRequest,
    apply_update, bookmark_matches, default_size};
use bookmarks::object_id::{check_id, make_id};
use bookmarks::repository::BookmarkRepository;
use bookmarks::service::BookmarkService;
use bookmarks::validation::{ValidatedJson, format_validation_errors, validate_create,
    validate_update};

fn svc() -> BookmarkService {
    BookmarkService::new(BookmarkRepository::new())
}

fn create_req(url: &str, title: &str, tags: &[&str]) -> CreateBookmarkRequest {
    CreateBookmarkRequest {
        url: url.to_string(),
        title: title.to_string(),
        tags: tags.iter().map(|t| t.to_string()).collect(),
    }
}

fn empty_update() -> UpdateBookmarkRequest {
    UpdateBookmarkRequest { url: None, title: None, tags: None, read: None }
}

#[test]
fn create_assigns_defaults() {
    let mut s = svc();
    let b = s.create(create_req("https://example.com/a", "First", &["x"]), 1000).unwrap();
    let id = b.id.clone().unwrap();
    assert!(!id.is_empty());
    assert_eq!(id.chars().count(), 24);
    assert!(check_id(&id));
    assert!(!b.read);
    assert_eq!(b.created_at, 1000);
    assert_eq!(b.url, "https://example.com/a");
    assert_eq!(b.title, "First");
    assert_eq!(b.tags, vec!["x".to_string()]);
}

#[test]
fn created_ids_are_distinct() {
    let mut s = svc();
    let a = s.create(create_req("https://example.com/a", "A", &[]), 1).unwrap();
    let b = s.create(create_req("https://example.com/b", "B", &[]), 2).unwrap();
    assert_ne!(a.id.unwrap(), b.id.unwrap());
}

#[test]
fn malformed_id_is_rejected_on_get() {
    let s = svc();
    let e = s.get("not-an-id").unwrap_err();
    assert!(matches!(e, AppError::InvalidId));
    assert_eq!(e.status_code(), 400);
    assert_eq!(e.error_code(), "INVALID_ID");
}

#[test]
fn malformed_id_is_rejected_on_update_and_delete() {
    let mut s = svc();
    let e = s.update("xyz", empty_update()).unwrap_err();
    assert!(matches!(e, AppError::InvalidId));
    let e = s.delete("0123456789abcdef0123456").unwrap_err(); // 23 digits
    assert!(matches!(e, AppError::InvalidId));
    let e = s.delete("0123456789abcdef0123456g").unwrap_err(); // 'g' is not hex
    assert!(matches!(e, AppError::InvalidId));
}

#[test]
fn check_id_accepts_exactly_24_hex_digits() {
    assert!(check_id("0123456789abcdef01234567"));
    assert!(check_id("ABCDEF0123456789abcdef01"));
    assert!(!check_id(""));
    assert!(!check_id("0123456789abcdef0123456"));
    assert!(!check_id("0123456789abcdef012345678"));
    assert!(!check_id("0123456789abcdef0123456:"));
}

#[test]
fn well_formed_but_absent_id_is_not_found() {
    let mut s = svc();
    let id = "0123456789abcdef01234567";
    let e = s.get(id).unwrap_err();
    assert!(matches!(e, AppError::NotFound));
    assert_eq!(e.status_code(), 404);
    assert_eq!(e.error_code(), "NOT_FOUND");
    let e = s.update(id, empty_update()).unwrap_err();
    assert!(matches!(e, AppError::NotFound));
    let e = s.delete(id).unwrap_err();
    assert!(matches!(e, AppError::NotFound));
}

#[test]
fn create_then_get_round_trip() {
    let mut s = svc();
    let b = s.create(create_req("https://example.com/rt", "Round trip", &["a", "b"]), 42).unwrap();
    let id = b.id.clone().unwrap();
    let got = s.get(&id).unwrap();
    assert_eq!(got.id, Some(id));
    assert_eq!(got.url, "https://example.com/rt");
    assert_eq!(got.title, "Round trip");
    assert_eq!(got.tags, vec!["a".to_string(), "b".to_string()]);
    assert_eq!(got.created_at, 42);
    assert!(!got.read);
}

#[test]
fn empty_update_returns_record_unchanged() {
    let mut s = svc();
    let b = s.create(create_req("https://example.com/u", "Keep", &["t"]), 7).unwrap();
    let id = b.id.clone().unwrap();
    let u = s.update(&id, empty_update()).unwrap();
    assert_eq!(u.id, b.id);
    assert_eq!(u.url, b.url);
    assert_eq!(u.title, b.title);
    assert_eq!(u.tags, b.tags);
    assert_eq!(u.created_at, b.created_at);
    assert_eq!(u.read, b.read);
}

#[test]
fn read_only_update_changes_only_read() {
    let mut s = svc();
    let b = s.create(create_req("https://example.com/r", "Mark me", &["keep"]), 9).unwrap();
    let id = b.id.clone().unwrap();
    let u = s
        .update(&id, UpdateBookmarkRequest { url: None, title: None, tags: None, read: Some(true) })
        .unwrap();
    assert!(u.read);
    assert_eq!(u.url, b.url);
    assert_eq!(u.title, b.title);
    assert_eq!(u.tags, b.tags);
    assert_eq!(u.id, b.id);
    assert_eq!(u.created_at, b.created_at);
    let got = s.get(&id).unwrap();
    assert!(got.read);
}

#[test]
fn update_replaces_present_fields() {
    let mut s = svc();
    let b = s.create(create_req("https://example.com/old", "Old", &["o"]), 5).unwrap();
    let id = b.id.clone().unwrap();
    let u = s
        .update(
            &id,
            UpdateBookmarkRequest {
                url: Some("https://example.com/new".to_string()),
                title: Some("New".to_string()),
                tags: Some(vec!["n".to_string()]),
                read: None,
            },
        )
        .unwrap();
    assert_eq!(u.url, "https://example.com/new");
    assert_eq!(u.title, "New");
    assert_eq!(u.tags, vec!["n".to_string()]);
    assert!(!u.read);
    assert_eq!(u.created_at, 5);
}

#[test]
fn validation_rejects_empty_title() {
    let r = validate_create(&create_req("https://example.com", "", &[]));
    let msg = r.unwrap_err();
    assert!(msg.contains("title: Title must be 1-200 characters"));
}

#[test]
fn validation_rejects_long_title() {
    let long = "t".repeat(201);
    let r = validate_create(&CreateBookmarkRequest {
        url: "https://example.com".to_string(),
        title: long,
        tags: vec![],
    });
    assert!(r.unwrap_err().contains("title: Title must be 1-200 characters"));
    let ok = "t".repeat(200);
    let r = validate_create(&CreateBookmarkRequest {
        url: "https://example.com".to_string(),
        title: ok,
        tags: vec![],
    });
    assert!(r.is_ok());
}

#[test]
fn validation_rejects_bad_url() {
    let r = validate_create(&create_req("definitely not a url", "Title", &[]));
    assert!(r.unwrap_err().contains("url: Must be a valid URL"));
    let r = validate_create(&create_req("https://example.com", "Title", &[]));
    assert!(r.is_ok());
}

#[test]
fn validation_rejects_eleven_tags() {
    let tags: Vec<&str> = vec!["a"; 11];
    let r = validate_create(&create_req("https://example.com", "Title", &tags));
    assert!(r.unwrap_err().contains("tags: Maximum 10 tags allowed"));
    let tags: Vec<&str> = vec!["a"; 10];
    let r = validate_create(&create_req("https://example.com", "Title", &tags));
    assert!(r.is_ok());
}

#[test]
fn validation_joins_all_failures() {
    let r = validate_create(&create_req("", "", &[]));
    let msg = r.unwrap_err();
    assert_eq!(
        msg,
        "url: Must be a valid URL, url: URL is required, title: Title must be 1-200 characters"
    );
}

#[test]
fn update_validation_checks_present_fields_only() {
    assert!(validate_update(&empty_update()).is_ok());
    let r = validate_update(&UpdateBookmarkRequest {
        url: Some("nope".to_string()),
        title: None,
        tags: None,
        read: None,
    });
    assert_eq!(r.unwrap_err(), "url: Must be a valid URL");
    let r = validate_update(&UpdateBookmarkRequest {
        url: None,
        title: Some("".to_string()),
        tags: Some(vec!["a".to_string(); 11]),
        read: None,
    });
    assert_eq!(
        r.unwrap_err(),
        "title: Title must be 1-200 characters, tags: Maximum 10 tags allowed"
    );
}

#[test]
fn validation_error_maps_to_400() {
    let e = AppError::ValidationError("title: Title must be 1-200 characters".to_string());
    assert_eq!(e.status_code(), 400);
    assert_eq!(e.error_code(), "VALIDATION_ERROR");
    assert_eq!(e.error_message(), "Invalid input: title: Title must be 1-200 characters");
}

#[test]
fn error_mapping_is_fixed() {
    assert_eq!(AppError::NotFound.status_code(), 404);
    assert_eq!(AppError::NotFound.error_message(), "Resource not found");
    assert_eq!(AppError::InvalidId.error_message(), "Invalid ID format");
    let e = AppError::DatabaseError(StoreError { detail: "socket closed".to_string() });
    assert_eq!(e.status_code(), 500);
    assert_eq!(e.error_code(), "DATABASE_ERROR");
    assert_eq!(e.error_message(), "Database error");
}

#[test]
fn search_by_tag_returns_only_tagged() {
    let mut s = svc();
    s.create(create_req("https://example.com/1", "One", &["x", "y"]), 1).unwrap();
    s.create(create_req("https://example.com/2", "Two", &["y"]), 2).unwrap();
    s.create(create_req("https://example.com/3", "Three", &["x"]), 3).unwrap();
    let found = s.list(Some("x"), false, 0, 20).unwrap();
    assert_eq!(found.len(), 2);
    for b in &found {
        assert!(b.tags.iter().any(|t| t == "x"));
    }
    assert_eq!(found[0].title, "Three");
    assert_eq!(found[1].title, "One");
}

#[test]
fn search_unread_only_excludes_read_records() {
    let mut s = svc();
    let a = s.create(create_req("https://example.com/1", "One", &["x"]), 1).unwrap();
    s.create(create_req("https://example.com/2", "Two", &["x"]), 2).unwrap();
    let id = a.id.clone().unwrap();
    s.update(&id, UpdateBookmarkRequest { url: None, title: None, tags: None, read: Some(true) })
        .unwrap();
    let found = s.list(Some("x"), true, 0, 20).unwrap();
    assert_eq!(found.len(), 1);
    assert_eq!(found[0].title, "Two");
    assert!(!found[0].read);
}

#[test]
fn search_pagination_skips_newest_first() {
    let mut s = svc();
    for (i, t) in ["A", "B", "C", "D"].iter().enumerate() {
        s.create(create_req("https://example.com/p", t, &[]), i as i64 + 1).unwrap();
    }
    let page = s.list(None, false, 1, 2).unwrap();
    assert_eq!(page.len(), 2);
    assert_eq!(page[0].title, "B");
    assert_eq!(page[1].title, "A");
    let page = s.list(None, false, 2, 2).unwrap();
    assert_eq!(page.len(), 0);
}

#[test]
fn listing_is_sorted_newest_first() {
    let mut s = svc();
    s.create(create_req("https://example.com/1", "Old", &[]), 10).unwrap();
    s.create(create_req("https://example.com/2", "Newest", &[]), 30).unwrap();
    s.create(create_req("https://example.com/3", "Middle", &[]), 20).unwrap();
    let all = s.list(None, false, 0, 20).unwrap();
    let titles: Vec<&str> = all.iter().map(|b| b.title.as_str()).collect();
    assert_eq!(titles, vec!["Newest", "Middle", "Old"]);
}

#[test]
fn delete_then_get_is_not_found() {
    let mut s = svc();
    let b = s.create(create_req("https://example.com/d", "Doomed", &[]), 1).unwrap();
    let id = b.id.clone().unwrap();
    s.delete(&id).unwrap();
    let e = s.get(&id).unwrap_err();
    assert!(matches!(e, AppError::NotFound));
    let e = s.delete(&id).unwrap_err();
    assert!(matches!(e, AppError::NotFound));
}

#[test]
fn default_page_size_is_twenty() {
    assert_eq!(default_size(), 20);
    let params = SearchParams { tag: None, unread_only: false, page: 0, size: default_size() };
    assert_eq!(params.size, 20);
}

#[test]
fn make_id_is_well_formed_and_distinct() {
    let a = make_id(0);
    let b = make_id(1);
    assert_eq!(a.chars().count(), 24);
    assert!(check_id(&a));
    assert!(check_id(&b));
    assert_ne!(a, b);
}

#[test]
fn apply_update_is_pure_field_replacement() {
    let b = Bookmark {
        id: Some("0123456789abcdef01234567".to_string()),
        url: "https://example.com".to_string(),
        title: "T".to_string(),
        tags: vec!["a".to_string()],
        created_at: 3,
        read: false,
    };
    let u = apply_update(
        &b,
        &UpdateBookmarkRequest {
            url: None,
            title: Some("New".to_string()),
            tags: None,
            read: Some(true),
        },
    );
    assert_eq!(u.title, "New");
    assert_eq!(u.url, b.url);
    assert_eq!(u.tags, b.tags);
    assert_eq!(u.id, b.id);
    assert_eq!(u.created_at, 3);
    assert!(u.read);
}

#[test]
fn bookmark_matches_checks_tag_and_read() {
    let b = Bookmark {
        id: None,
        url: "https://example.com".to_string(),
        title: "T".to_string(),
        tags: vec!["x".to_string()],
        created_at: 0,
        read: true,
    };
    let x = "x".to_string();
    let y = "y".to_string();
    assert!(bookmark_matches(&b, Some(&x), false));
    assert!(!bookmark_matches(&b, Some(&y), false));
    assert!(!bookmark_matches(&b, Some(&x), true));
    assert!(!bookmark_matches(&b, None, true));
    assert!(bookmark_matches(&b, None, false));
}

#[test]
fn format_validation_errors_joins_with_commas() {
    assert_eq!(format_validation_errors(&vec![]), "");
    assert_eq!(format_validation_errors(&vec!["a: b"]), "a: b");
    assert_eq!(format_validation_errors(&vec!["a: b", "c: d"]), "a: b, c: d");
}

#[test]
fn validated_json_carries_the_body() {
    let ValidatedJson(req) = ValidatedJson(create_req("https://example.com", "T", &[]));
    assert_eq!(req.title, "T");
}

#[test]
fn repository_find_all_returns_everything_sorted() {
    let mut repo = BookmarkRepository::new();
    let mk = |title: &str, at: i64| Bookmark {
        id: None,
        url: "https://example.com".to_string(),
        title: title.to_string(),
        tags: vec![],
        created_at: at,
        read: false,
    };
    repo.create(mk("Old", 1)).unwrap();
    repo.create(mk("New", 2)).unwrap();
    let all = repo.find_all().unwrap();
    assert_eq!(all.len(), 2);
    assert_eq!(all[0].title, "New");
    assert_eq!(all[1].title, "Old");
    let found = repo.find_by_id(all[0].id.as_ref().unwrap()).unwrap();
    assert_eq!(found.unwrap().title, "New");
    assert!(repo.find_by_id("0123456789abcdef01234567").unwrap().is_none());
    assert!(repo.delete(all[1].id.as_ref().unwrap()).unwrap());
    assert!(!repo.delete("0123456789abcdef01234567").unwrap());
}

#[test]
fn creation_record_applies_the_defaults() {
    let b = bookmarks::service::creation_record(create_req("https://example.com", "T", &["a"]), 55);
    assert_eq!(b.id, None);
    assert_eq!(b.url, "https://example.com");
    assert_eq!(b.title, "T");
    assert_eq!(b.tags, vec!["a".to_string()]);
    assert_eq!(b.created_at, 55);
    assert!(!b.read);
}

#[test]
fn require_found_maps_empty_results_to_not_found() {
    let b = bookmarks::service::creation_record(create_req("https://example.com", "T", &[]), 1);
    let ok = bookmarks::service::require_found(Some(b)).unwrap();
    assert_eq!(ok.title, "T");
    let e = bookmarks::service::require_found(None).unwrap_err();
    assert!(matches!(e, AppError::NotFound));
}

#[test]
fn require_deleted_maps_false_to_not_found() {
    assert!(bookmarks::service::require_deleted(true).is_ok());
    let e = bookmarks::service::require_deleted(false).unwrap_err();
    assert!(matches!(e, AppError::NotFound));
}
