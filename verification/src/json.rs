//! JSON rendering of the two response bodies, byte for byte: a JSON array of
//! strings for the category listing, and a JSON array of review objects for
//! the review listing. Rendering is specified down to the exact byte
//! sequence, so equal inputs always give byte-identical bodies.

use vstd::prelude::*;
use crate::model::Review;

verus! {

/// The lower-case hexadecimal digit of a value below 16.
pub open spec fn spec_hex_digit(d: u8) -> u8 {
    if d < 10 {
        (48 + d) as u8
    } else {
        (87 + d) as u8
    }
}

/// The JSON escape of one byte inside a string literal: quote and backslash
/// are escaped, control bytes get their short escape or a `\u00XX` form,
/// every other byte (including UTF-8 continuation bytes) passes through.
pub open spec fn spec_escape_byte(b: u8) -> Seq<u8> {
    if b == 34 {
        seq![92u8, 34u8]
    } else if b == 92 {
        seq![92u8, 92u8]
    } else if b == 8 {
        seq![92u8, 98u8]
    } else if b == 9 {
        seq![92u8, 116u8]
    } else if b == 10 {
        seq![92u8, 110u8]
    } else if b == 12 {
        seq![92u8, 102u8]
    } else if b == 13 {
        seq![92u8, 114u8]
    } else if b < 32 {
        seq![92u8, 117u8, 48u8, 48u8, spec_hex_digit(b / 16), spec_hex_digit(b % 16)]
    } else {
        seq![b]
    }
}

/// The JSON escape of a whole byte string.
pub open spec fn spec_escape(s: Seq<u8>) -> Seq<u8>
    decreases s.len(),
{
    if s.len() == 0 {
        Seq::empty()
    } else {
        spec_escape(s.drop_last()) + spec_escape_byte(s.last())
    }
}

/// A JSON string literal: the escaped bytes between double quotes.
pub open spec fn spec_json_string(s: Seq<u8>) -> Seq<u8> {
    seq![34u8] + spec_escape(s) + seq![34u8]
}

/// The decimal digits of a non-negative number, most significant first.
pub open spec fn spec_u64_digits(n: nat) -> Seq<u8>
    decreases n,
{
    if n < 10 {
        seq![(48 + n) as u8]
    } else {
        spec_u64_digits(n / 10).push((48 + n % 10) as u8)
    }
}

/// The decimal rendering of an integer, with a leading minus sign when
/// negative.
pub open spec fn spec_dec(n: int) -> Seq<u8> {
    if n < 0 {
        seq![45u8] + spec_u64_digits((-n) as nat)
    } else {
        spec_u64_digits(n as nat)
    }
}

/// The JSON rendering of a boolean.
pub open spec fn spec_bool_json(b: bool) -> Seq<u8> {
    if b {
        seq![116u8, 114u8, 117u8, 101u8]
    } else {
        seq![102u8, 97u8, 108u8, 115u8, 101u8]
    }
}

/// The bytes of `{"player_steam_id":`.
pub open spec fn spec_key_player() -> Seq<u8> {
    seq![
        123u8,
        34u8,
        112u8,
        108u8,
        97u8,
        121u8,
        101u8,
        114u8,
        95u8,
        115u8,
        116u8,
        101u8,
        97u8,
        109u8,
        95u8,
        105u8,
        100u8,
        34u8,
        58u8,
    ]
}

/// The bytes of `,"score":`.
pub open spec fn spec_key_score() -> Seq<u8> {
    seq![44u8, 34u8, 115u8, 99u8, 111u8, 114u8, 101u8, 34u8, 58u8]
}

/// The bytes of `,"is_legal":`.
pub open spec fn spec_key_legal() -> Seq<u8> {
    seq![44u8, 34u8, 105u8, 115u8, 95u8, 108u8, 101u8, 103u8, 97u8, 108u8, 34u8, 58u8]
}

/// One review as a JSON object with its three fields in fixed order.
pub open spec fn spec_review_json(r: Review) -> Seq<u8> {
    spec_key_player() + spec_dec(r.player_steam_id as int) + spec_key_score() + spec_dec(
        r.score as int,
    ) + spec_key_legal() + spec_bool_json(r.is_legal) + seq![125u8]
}

/// The comma-separated JSON string literals of a list of names.
pub open spec fn spec_string_items(names: Seq<Seq<u8>>) -> Seq<u8>
    decreases names.len(),
{
    if names.len() == 0 {
        Seq::empty()
    } else if names.len() == 1 {
        spec_json_string(names[0])
    } else {
        spec_string_items(names.drop_last()) + seq![44u8] + spec_json_string(names.last())
    }
}

/// The category listing body: a JSON array of name strings.
pub open spec fn spec_categories_body(names: Seq<Seq<u8>>) -> Seq<u8> {
    seq![91u8] + spec_string_items(names) + seq![93u8]
}

/// The comma-separated JSON objects of a list of reviews.
pub open spec fn spec_review_items(reviews: Seq<Review>) -> Seq<u8>
    decreases reviews.len(),
{
    if reviews.len() == 0 {
        Seq::empty()
    } else if reviews.len() == 1 {
        spec_review_json(reviews[0])
    } else {
        spec_review_items(reviews.drop_last()) + seq![44u8] + spec_review_json(reviews.last())
    }
}

/// The review listing body: a JSON array of review objects.
pub open spec fn spec_reviews_body(reviews: Seq<Review>) -> Seq<u8> {
    seq![91u8] + spec_review_items(reviews) + seq![93u8]
}

/// The lower-case hexadecimal digit of a value below 16.
fn hex_digit(d: u8) -> (c: u8)
    requires
        d < 16,
    ensures
        c == spec_hex_digit(d),
{
    if d < 10 {
        48 + d
    } else {
        87 + d
    }
}

/// Appends the JSON escape of one byte.
fn push_escaped_byte(out: &mut Vec<u8>, b: u8)
    ensures
        final(out)@ == old(out)@ + spec_escape_byte(b),
{
    if b == 34 {
        out.push(92);
        out.push(34);
    } else if b == 92 {
        out.push(92);
        out.push(92);
    } else if b == 8 {
        out.push(92);
        out.push(98);
    } else if b == 9 {
        out.push(92);
        out.push(116);
    } else if b == 10 {
        out.push(92);
        out.push(110);
    } else if b == 12 {
        out.push(92);
        out.push(102);
    } else if b == 13 {
        out.push(92);
        out.push(114);
    } else if b < 32 {
        out.push(92);
        out.push(117);
        out.push(48);
        out.push(48);
        out.push(hex_digit(b / 16));
        out.push(hex_digit(b % 16));
    } else {
        out.push(b);
    }
    assert(out@ =~= old(out)@ + spec_escape_byte(b));
}

/// Appends a JSON string literal holding the escaped bytes of `s`.
fn push_json_string(out: &mut Vec<u8>, s: &Vec<u8>)
    ensures
        final(out)@ == old(out)@ + spec_json_string(s@),
{
    out.push(34);
    let mut i: usize = 0;
    proof {
        assert(out@ =~= old(out)@ + seq![34u8] + spec_escape(s@.take(0)));
    }
    while i < s.len()
        invariant
            i <= s@.len(),
            out@ == old(out)@ + seq![34u8] + spec_escape(s@.take(i as int)),
        decreases s@.len() - i,
    {
        push_escaped_byte(out, s[i]);
        proof {
            assert(s@.take(i as int + 1).drop_last() =~= s@.take(i as int));
            assert(s@.take(i as int + 1).last() == s@[i as int]);
            assert(out@ =~= old(out)@ + seq![34u8] + spec_escape(s@.take(i as int + 1)));
        }
        i = i + 1;
    }
    out.push(34);
    proof {
        assert(s@.take(s@.len() as int) =~= s@);
        assert(out@ =~= old(out)@ + spec_json_string(s@));
    }
}

/// Appends the decimal digits of a non-negative number.
fn push_u64_digits(out: &mut Vec<u8>, n: u64)
    ensures
        final(out)@ == old(out)@ + spec_u64_digits(n as nat),
    decreases n,
{
    if n < 10 {
        out.push(48 + (n as u8));
        assert(out@ =~= old(out)@ + spec_u64_digits(n as nat));
    } else {
        push_u64_digits(out, n / 10);
        out.push(48 + ((n % 10) as u8));
        assert(out@ =~= old(out)@ + spec_u64_digits(n as nat));
    }
}

/// Appends the decimal rendering of a signed number.
fn push_i64_dec(out: &mut Vec<u8>, n: i64)
    ensures
        final(out)@ == old(out)@ + spec_dec(n as int),
{
    if n >= 0 {
        push_u64_digits(out, n as u64);
    } else {
        out.push(45);
        let m: u64 = ((-(n + 1)) as u64) + 1;
        proof {
            assert(m as int == -(n as int));
        }
        push_u64_digits(out, m);
        assert(out@ =~= old(out)@ + spec_dec(n as int));
    }
}

/// Appends `true` or `false`.
fn push_bool(out: &mut Vec<u8>, b: bool)
    ensures
        final(out)@ == old(out)@ + spec_bool_json(b),
{
    if b {
        out.push(116);
        out.push(114);
        out.push(117);
        out.push(101);
    } else {
        out.push(102);
        out.push(97);
        out.push(108);
        out.push(115);
        out.push(101);
    }
    assert(out@ =~= old(out)@ + spec_bool_json(b));
}

/// Appends the bytes of `{"player_steam_id":`.
fn push_key_player(out: &mut Vec<u8>)
    ensures
        final(out)@ == old(out)@ + spec_key_player(),
{
    out.push(123);
    out.push(34);
    out.push(112);
    out.push(108);
    out.push(97);
    out.push(121);
    out.push(101);
    out.push(114);
    out.push(95);
    out.push(115);
    out.push(116);
    out.push(101);
    out.push(97);
    out.push(109);
    out.push(95);
    out.push(105);
    out.push(100);
    out.push(34);
    out.push(58);
    assert(out@ =~= old(out)@ + spec_key_player());
}

/// Appends the bytes of `,"score":`.
fn push_key_score(out: &mut Vec<u8>)
    ensures
        final(out)@ == old(out)@ + spec_key_score(),
{
    out.push(44);
    out.push(34);
    out.push(115);
    out.push(99);
    out.push(111);
    out.push(114);
    out.push(101);
    out.push(34);
    out.push(58);
    assert(out@ =~= old(out)@ + spec_key_score());
}

/// Appends the bytes of `,"is_legal":`.
fn push_key_legal(out: &mut Vec<u8>)
    ensures
        final(out)@ == old(out)@ + spec_key_legal(),
{
    out.push(44);
    out.push(34);
    out.push(105);
    out.push(115);
    out.push(95);
    out.push(108);
    out.push(101);
    out.push(103);
    out.push(97);
    out.push(108);
    out.push(34);
    out.push(58);
    assert(out@ =~= old(out)@ + spec_key_legal());
}

/// Appends one review as a JSON object.
fn push_review(out: &mut Vec<u8>, r: Review)
    ensures
        final(out)@ == old(out)@ + spec_review_json(r),
{
    push_key_player(out);
    push_i64_dec(out, r.player_steam_id);
    assert(out@ =~= old(out)@ + spec_key_player() + spec_dec(r.player_steam_id as int));
    push_key_score(out);
    push_i64_dec(out, r.score as i64);
    assert(out@ =~= old(out)@ + spec_key_player() + spec_dec(r.player_steam_id as int)
        + spec_key_score() + spec_dec(r.score as int));
    push_key_legal(out);
    push_bool(out, r.is_legal);
    out.push(125);
    assert(out@ =~= old(out)@ + spec_review_json(r));
}

/// Renders the category listing: a JSON array holding exactly the given
/// names, in order, as JSON strings.
pub fn render_categories_body(names: &Vec<Vec<u8>>) -> (out: Vec<u8>)
    ensures
        out@ == spec_categories_body(names.deep_view()),
{
    let ghost dv = names.deep_view();
    let mut out: Vec<u8> = Vec::new();
    out.push(91);
    let mut i: usize = 0;
    proof {
        assert(out@ =~= seq![91u8] + spec_string_items(dv.take(0)));
    }
    while i < names.len()
        invariant
            i <= names@.len(),
            dv == names.deep_view(),
            dv.len() == names@.len(),
            out@ == seq![91u8] + spec_string_items(dv.take(i as int)),
        decreases names@.len() - i,
    {
        if i > 0 {
            out.push(44);
        }
        push_json_string(&mut out, &names[i]);
        proof {
            assert(names@[i as int].deep_view() =~= names@[i as int]@);
            assert(dv[i as int] == names@[i as int]@);
            assert(dv.take(i as int + 1).drop_last() =~= dv.take(i as int));
            assert(dv.take(i as int + 1).last() == dv[i as int]);
            assert(out@ =~= seq![91u8] + spec_string_items(dv.take(i as int + 1)));
        }
        i = i + 1;
    }
    out.push(93);
    proof {
        assert(dv.take(dv.len() as int) =~= dv);
        assert(out@ =~= spec_categories_body(dv));
    }
    out
}

/// Renders the review listing: a JSON array holding exactly the given
/// reviews, in order, as JSON objects.
pub fn render_reviews_body(reviews: &Vec<Review>) -> (out: Vec<u8>)
    ensures
        out@ == spec_reviews_body(reviews@),
{
    let mut out: Vec<u8> = Vec::new();
    out.push(91);
    let mut i: usize = 0;
    proof {
        assert(out@ =~= seq![91u8] + spec_review_items(reviews@.take(0)));
    }
    while i < reviews.len()
        invariant
            i <= reviews@.len(),
            out@ == seq![91u8] + spec_review_items(reviews@.take(i as int)),
        decreases reviews@.len() - i,
    {
        if i > 0 {
            out.push(44);
        }
        push_review(&mut out, reviews[i]);
        proof {
            assert(reviews@.take(i as int + 1).drop_last() =~= reviews@.take(i as int));
            assert(reviews@.take(i as int + 1).last() == reviews@[i as int]);
            assert(out@ =~= seq![91u8] + spec_review_items(reviews@.take(i as int + 1)));
        }
        i = i + 1;
    }
    out.push(93);
    proof {
        assert(reviews@.take(reviews@.len() as int) =~= reviews@);
        assert(out@ =~= spec_reviews_body(reviews@));
    }
    out
}

} // verus!
