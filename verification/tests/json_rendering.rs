use leaderboard_reviews::json::{render_categories_body, render_reviews_body};
use leaderboard_reviews::model::Review;

#[test]
fn empty_list_renders_as_empty_array() {
    assert_eq!(render_categories_body(&vec![]), b"[]".to_vec());
    assert_eq!(render_reviews_body(&vec![]), b"[]".to_vec());
}

#[test]
fn single_name_renders_without_separator() {
    let body = render_categories_body(&vec![b"speed".to_vec()]);
    assert_eq!(body, b"[\"speed\"]".to_vec());
}

#[test]
fn names_keep_store_order_and_are_comma_separated() {
    let body = render_categories_body(&vec![b"b".to_vec(), b"a".to_vec(), b"c".to_vec()]);
    assert_eq!(body, b"[\"b\",\"a\",\"c\"]".to_vec());
}

#[test]
fn quotes_and_backslashes_in_names_are_escaped() {
    let body = render_categories_body(&vec![b"a\"b\\c".to_vec()]);
    assert_eq!(body, b"[\"a\\\"b\\\\c\"]".to_vec());
}

#[test]
fn control_bytes_in_names_are_escaped() {
    let body = render_categories_body(&vec![b"a\nb\tc\rd".to_vec()]);
    assert_eq!(body, b"[\"a\\nb\\tc\\rd\"]".to_vec());
    let body = render_categories_body(&vec![vec![0x01u8, 0x1f]]);
    assert_eq!(body, b"[\"\\u0001\\u001f\"]".to_vec());
}

#[test]
fn multibyte_name_bytes_pass_through_verbatim() {
    let name = "grandes-catégories".as_bytes().to_vec();
    let body = render_categories_body(&vec![name]);
    assert_eq!(body, "[\"grandes-catégories\"]".as_bytes().to_vec());
}

#[test]
fn review_object_has_fixed_field_order_and_exact_numbers() {
    let body = render_reviews_body(&vec![Review {
        player_steam_id: 76561198000000000,
        score: 0,
        is_legal: true,
    }]);
    assert_eq!(
        body,
        b"[{\"player_steam_id\":76561198000000000,\"score\":0,\"is_legal\":true}]".to_vec()
    );
}

#[test]
fn negative_numbers_render_with_minus_sign() {
    let body = render_reviews_body(&vec![Review {
        player_steam_id: -42,
        score: -7,
        is_legal: false,
    }]);
    assert_eq!(body, b"[{\"player_steam_id\":-42,\"score\":-7,\"is_legal\":false}]".to_vec());
}

#[test]
fn extreme_integer_values_render_exactly() {
    let body = render_reviews_body(&vec![Review {
        player_steam_id: i64::MIN,
        score: i32::MAX,
        is_legal: false,
    }]);
    assert_eq!(
        body,
        b"[{\"player_steam_id\":-9223372036854775808,\"score\":2147483647,\"is_legal\":false}]"
            .to_vec()
    );
    let body = render_reviews_body(&vec![Review {
        player_steam_id: i64::MAX,
        score: i32::MIN,
        is_legal: true,
    }]);
    assert_eq!(
        body,
        b"[{\"player_steam_id\":9223372036854775807,\"score\":-2147483648,\"is_legal\":true}]"
            .to_vec()
    );
}
