use leaderboard_reviews::model::{list_categories, list_reviews, NamedRow, Review, ReviewRow, Store};
use leaderboard_reviews::routes::{dispatch, Method, Route};
use leaderboard_reviews::service::{handle, respond_categories, respond_reviews, QueryError};

fn seeded_store() -> Store {
    Store {
        categories: vec![
            NamedRow { id: 1, name: b"speed".to_vec() },
            NamedRow { id: 2, name: b"damage".to_vec() },
        ],
        leaderboards: vec![NamedRow { id: 10, name: b"world".to_vec() }],
        reviews: vec![
            ReviewRow {
                category_id: 1,
                leaderboard_id: 10,
                review: Review { player_steam_id: 1001, score: 50, is_legal: true },
            },
            ReviewRow {
                category_id: 1,
                leaderboard_id: 10,
                review: Review { player_steam_id: 1002, score: 40, is_legal: false },
            },
        ],
    }
}

#[test]
fn categories_lists_exactly_the_stored_names() {
    let store = seeded_store();
    let names = list_categories(&store);
    assert_eq!(names, vec![b"speed".to_vec(), b"damage".to_vec()]);
}

#[test]
fn categories_endpoint_returns_json_array_of_names() {
    let store = seeded_store();
    let r = handle(&store, Method::Get, &b"/categories".to_vec());
    assert_eq!(r.status, 200);
    assert!(r.allow_any_origin);
    assert_eq!(r.body, b"[\"speed\",\"damage\"]".to_vec());
}

#[test]
fn reviews_endpoint_returns_matching_reviews_sorted() {
    let store = seeded_store();
    let r = handle(&store, Method::Get, &b"/categories/speed/world".to_vec());
    assert_eq!(r.status, 200);
    assert!(r.allow_any_origin);
    assert_eq!(
        r.body,
        b"[{\"player_steam_id\":1001,\"score\":50,\"is_legal\":true},{\"player_steam_id\":1002,\"score\":40,\"is_legal\":false}]"
            .to_vec()
    );
}

#[test]
fn reviews_come_out_ascending_by_participant_even_if_stored_descending() {
    let mut store = seeded_store();
    store.reviews.reverse();
    let reviews = list_reviews(&store, &b"speed".to_vec(), &b"world".to_vec());
    assert_eq!(reviews.len(), 2);
    assert_eq!(reviews[0].player_steam_id, 1001);
    assert_eq!(reviews[1].player_steam_id, 1002);
}

#[test]
fn reviews_of_other_pairs_are_filtered_out() {
    let mut store = seeded_store();
    store.leaderboards.push(NamedRow { id: 11, name: b"europe".to_vec() });
    store.reviews.push(ReviewRow {
        category_id: 1,
        leaderboard_id: 11,
        review: Review { player_steam_id: 5, score: 1, is_legal: true },
    });
    store.reviews.push(ReviewRow {
        category_id: 2,
        leaderboard_id: 10,
        review: Review { player_steam_id: 6, score: 2, is_legal: true },
    });
    let reviews = list_reviews(&store, &b"speed".to_vec(), &b"world".to_vec());
    assert_eq!(reviews.len(), 2);
    assert_eq!(reviews[0].player_steam_id, 1001);
    assert_eq!(reviews[1].player_steam_id, 1002);
}

#[test]
fn unknown_leaderboard_yields_empty_array_with_success() {
    let store = seeded_store();
    let r = handle(&store, Method::Get, &b"/categories/speed/unknown".to_vec());
    assert_eq!(r.status, 200);
    assert_eq!(r.body, b"[]".to_vec());
}

#[test]
fn unknown_category_yields_empty_array_with_success() {
    let store = seeded_store();
    let r = handle(&store, Method::Get, &b"/categories/nosuch/world".to_vec());
    assert_eq!(r.status, 200);
    assert_eq!(r.body, b"[]".to_vec());
}

#[test]
fn names_are_matched_case_sensitively_and_verbatim() {
    let store = seeded_store();
    let r = handle(&store, Method::Get, &b"/categories/Speed/world".to_vec());
    assert_eq!(r.status, 200);
    assert_eq!(r.body, b"[]".to_vec());
    let r = handle(&store, Method::Get, &b"/categories/speed /world".to_vec());
    assert_eq!(r.status, 200);
    assert_eq!(r.body, b"[]".to_vec());
}

#[test]
fn same_request_twice_gives_byte_identical_bodies() {
    let store = seeded_store();
    let first = handle(&store, Method::Get, &b"/categories/speed/world".to_vec());
    let second = handle(&store, Method::Get, &b"/categories/speed/world".to_vec());
    assert_eq!(first.status, second.status);
    assert_eq!(first.body, second.body);
    let first = handle(&store, Method::Get, &b"/categories".to_vec());
    let second = handle(&store, Method::Get, &b"/categories".to_vec());
    assert_eq!(first.body, second.body);
}

#[test]
fn distinct_pairs_each_get_their_own_result() {
    let mut store = seeded_store();
    store.leaderboards.push(NamedRow { id: 11, name: b"europe".to_vec() });
    store.reviews.push(ReviewRow {
        category_id: 2,
        leaderboard_id: 11,
        review: Review { player_steam_id: 7, score: 3, is_legal: false },
    });
    let a = handle(&store, Method::Get, &b"/categories/speed/world".to_vec());
    let b = handle(&store, Method::Get, &b"/categories/damage/europe".to_vec());
    assert_eq!(
        a.body,
        b"[{\"player_steam_id\":1001,\"score\":50,\"is_legal\":true},{\"player_steam_id\":1002,\"score\":40,\"is_legal\":false}]"
            .to_vec()
    );
    assert_eq!(b.body, b"[{\"player_steam_id\":7,\"score\":3,\"is_legal\":false}]".to_vec());
}

#[test]
fn query_failure_becomes_opaque_server_error_for_categories() {
    let err = QueryError { detail: b"connection refused at host db:5432".to_vec() };
    let r = respond_categories(Err(err));
    assert_eq!(r.status, 500);
    assert!(r.body.is_empty());
}

#[test]
fn query_failure_becomes_opaque_server_error_for_reviews() {
    let err = QueryError { detail: b"row decode: score was null".to_vec() };
    let r = respond_reviews(Err(err));
    assert_eq!(r.status, 500);
    assert!(r.body.is_empty());
    assert!(r.allow_any_origin);
}

#[test]
fn non_get_method_matches_no_route() {
    let store = seeded_store();
    let r = handle(&store, Method::Other, &b"/categories".to_vec());
    assert_eq!(r.status, 404);
    assert!(r.body.is_empty());
}

#[test]
fn unmatched_paths_fall_through_to_not_found() {
    let store = seeded_store();
    for path in [
        &b""[..],
        b"/",
        b"/categorie",
        b"/categories/",
        b"/categories/speed",
        b"/categories/speed/world/extra",
        b"categories",
        b"/other",
    ] {
        let r = handle(&store, Method::Get, &path.to_vec());
        assert_eq!(r.status, 404, "path {:?} should not match", path);
    }
}

#[test]
fn dispatch_extracts_the_two_segments_verbatim() {
    let route = dispatch(Method::Get, &b"/categories/a%20b/x.y".to_vec());
    assert_eq!(route, Route::Reviews(b"a%20b".to_vec(), b"x.y".to_vec()));
    let route = dispatch(Method::Get, &b"/categories".to_vec());
    assert_eq!(route, Route::Categories);
    let route = dispatch(Method::Other, &b"/categories".to_vec());
    assert_eq!(route, Route::NotFound);
}

#[test]
fn empty_store_lists_no_categories_and_empty_reviews() {
    let store = Store { categories: vec![], leaderboards: vec![], reviews: vec![] };
    let r = handle(&store, Method::Get, &b"/categories".to_vec());
    assert_eq!(r.status, 200);
    assert_eq!(r.body, b"[]".to_vec());
    let r = handle(&store, Method::Get, &b"/categories/a/b".to_vec());
    assert_eq!(r.status, 200);
    assert_eq!(r.body, b"[]".to_vec());
}
