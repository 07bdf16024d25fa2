//! The store model: the three relations the service queries (categories,
//! leaderboards, reviews) held as plain rows, and the two read-only queries
//! over them: listing every category name, and listing the reviews of one
//! (category, leaderboard) pair in ascending participant order.

use vstd::prelude::*;

verus! {

/// One review: a participant identifier, an integer score, and a legality flag.
#[derive(Clone, Copy, Debug, PartialEq, Eq, Structural)]
pub struct Review {
    pub player_steam_id: i64,
    pub score: i32,
    pub is_legal: bool,
}

/// A row of a relation that pairs an internal identifier with a unique name
/// (the shape of both the categories and the leaderboards relations).
/// Names are kept as raw bytes: path segments are matched verbatim,
/// case-sensitively, with no normalization.
pub struct NamedRow {
    pub id: i64,
    pub name: Vec<u8>,
}

/// A review row: the review itself plus the identifiers that scope it to one
/// (category, leaderboard) pair.
pub struct ReviewRow {
    pub category_id: i64,
    pub leaderboard_id: i64,
    pub review: Review,
}

/// The store's contents as this service sees them: three read-only relations.
pub struct Store {
    pub categories: Vec<NamedRow>,
    pub leaderboards: Vec<NamedRow>,
    pub reviews: Vec<ReviewRow>,
}

/// The names of a sequence of rows, in row order.
pub open spec fn spec_names(rows: Seq<NamedRow>) -> Seq<Seq<u8>> {
    rows.map_values(|row: NamedRow| row.name@)
}

impl Store {
    /// What the store guarantees: names are unique within each of the two
    /// name relations, and there is at most one review row per
    /// (category, leaderboard, participant) triple.
    pub open spec fn wf(self) -> bool {
        &&& forall|i: int, j: int|
            0 <= i < j < self.categories@.len() ==> self.categories@[i].name@
                != self.categories@[j].name@
        &&& forall|i: int, j: int|
            0 <= i < j < self.leaderboards@.len() ==> self.leaderboards@[i].name@
                != self.leaderboards@[j].name@
        &&& forall|i: int, j: int|
            0 <= i < j < self.reviews@.len() ==> !(self.reviews@[i].category_id
                == self.reviews@[j].category_id && self.reviews@[i].leaderboard_id
                == self.reviews@[j].leaderboard_id
                && self.reviews@[i].review.player_steam_id
                == self.reviews@[j].review.player_steam_id)
    }
}

/// Copies the bytes of one name.
fn copy_bytes(src: &Vec<u8>) -> (out: Vec<u8>)
    ensures
        out@ == src@,
{
    let mut out: Vec<u8> = Vec::new();
    let mut j: usize = 0;
    while j < src.len()
        invariant
            j <= src@.len(),
            out@ == src@.take(j as int),
        decreases src@.len() - j,
    {
        out.push(src[j]);
        assert(out@ =~= src@.take(j as int + 1));
        j = j + 1;
    }
    assert(out@ =~= src@);
    out
}

/// Every category name in the store, in the store's row order:
/// nothing dropped, nothing added, nothing reordered.
pub fn list_categories(store: &Store) -> (names: Vec<Vec<u8>>)
    ensures
        names.deep_view() == spec_names(store.categories@),
        names@.len() == store.categories@.len(),
        forall|k: int| 0 <= k < names@.len() ==> names@[k]@ == store.categories@[k].name@,
{
    let mut names: Vec<Vec<u8>> = Vec::new();
    let mut i: usize = 0;
    while i < store.categories.len()
        invariant
            i <= store.categories@.len(),
            names@.len() == i,
            forall|k: int| 0 <= k < i ==> names@[k]@ == store.categories@[k].name@,
        decreases store.categories@.len() - i,
    {
        let name = copy_bytes(&store.categories[i].name);
        names.push(name);
        i = i + 1;
    }
    proof {
        assert forall|k: int| 0 <= k < names@.len() implies names.deep_view()[k] == spec_names(
            store.categories@,
        )[k] by {
            assert(names@[k].deep_view() =~= names@[k]@);
        }
        assert(names.deep_view() =~= spec_names(store.categories@));
    }
    names
}

/// True when the two byte vectors hold the same bytes.
pub(crate) fn bytes_eq(a: &Vec<u8>, b: &Vec<u8>) -> (r: bool)
    ensures
        r == (a@ == b@),
{
    if a.len() != b.len() {
        return false;
    }
    let mut i: usize = 0;
    while i < a.len()
        invariant
            a@.len() == b@.len(),
            i <= a@.len(),
            forall|k: int| 0 <= k < i ==> a@[k] == b@[k],
        decreases a@.len() - i,
    {
        if a[i] != b[i] {
            return false;
        }
        i = i + 1;
    }
    proof {
        assert(a@ =~= b@);
    }
    true
}

/// The identifier of the first row whose name equals `name`, if any.
/// With unique names ([`Store::wf`]) this is the one matching row.
pub open spec fn spec_resolve(rows: Seq<NamedRow>, name: Seq<u8>) -> Option<i64>
    decreases rows.len(),
{
    if rows.len() == 0 {
        None
    } else if rows.first().name@ == name {
        Some(rows.first().id)
    } else {
        spec_resolve(rows.drop_first(), name)
    }
}

/// Resolves a name to an internal identifier by scanning the relation;
/// `None` when no row carries the name.
fn resolve(rows: &Vec<NamedRow>, name: &Vec<u8>) -> (id: Option<i64>)
    ensures
        id == spec_resolve(rows@, name@),
{
    let mut i: usize = 0;
    proof {
        assert(rows@.skip(0) =~= rows@);
    }
    while i < rows.len()
        invariant
            i <= rows@.len(),
            spec_resolve(rows@, name@) == spec_resolve(rows@.skip(i as int), name@),
        decreases rows@.len() - i,
    {
        proof {
            assert(rows@.skip(i as int).first() == rows@[i as int]);
            assert(rows@.skip(i as int).drop_first() =~= rows@.skip(i as int + 1));
        }
        if bytes_eq(&rows[i].name, name) {
            return Some(rows[i].id);
        }
        i = i + 1;
    }
    proof {
        assert(rows@.skip(rows@.len() as int) =~= Seq::<NamedRow>::empty());
    }
    None
}

/// The reviews of the rows scoped to the given category and leaderboard
/// identifiers, in row order.
pub open spec fn spec_matching(rows: Seq<ReviewRow>, cid: i64, lid: i64) -> Seq<Review>
    decreases rows.len(),
{
    if rows.len() == 0 {
        Seq::empty()
    } else {
        let rest = spec_matching(rows.drop_last(), cid, lid);
        if rows.last().category_id == cid && rows.last().leaderboard_id == lid {
            rest.push(rows.last().review)
        } else {
            rest
        }
    }
}

/// Collects the reviews whose row matches both identifiers, in row order.
fn collect_matching(rows: &Vec<ReviewRow>, cid: i64, lid: i64) -> (out: Vec<Review>)
    ensures
        out@ == spec_matching(rows@, cid, lid),
{
    let mut out: Vec<Review> = Vec::new();
    let mut i: usize = 0;
    while i < rows.len()
        invariant
            i <= rows@.len(),
            out@ == spec_matching(rows@.take(i as int), cid, lid),
        decreases rows@.len() - i,
    {
        if rows[i].category_id == cid && rows[i].leaderboard_id == lid {
            out.push(rows[i].review);
        }
        proof {
            assert(rows@.take(i as int + 1).drop_last() =~= rows@.take(i as int));
            assert(rows@.take(i as int + 1).last() == rows@[i as int]);
        }
        i = i + 1;
    }
    proof {
        assert(rows@.take(rows@.len() as int) =~= rows@);
    }
    out
}

/// Ascending order by participant identifier.
pub open spec fn sorted_by_participant(s: Seq<Review>) -> bool {
    forall|i: int, j: int|
        0 <= i <= j < s.len() ==> s[i].player_steam_id <= s[j].player_steam_id
}

/// Stable insertion of one review into a sequence, keeping ascending
/// participant order: the review goes after every element whose participant
/// identifier is less than or equal to its own.
pub open spec fn spec_insert_review(s: Seq<Review>, x: Review) -> Seq<Review>
    decreases s.len(),
{
    if s.len() == 0 {
        seq![x]
    } else if s.last().player_steam_id <= x.player_steam_id {
        s.push(x)
    } else {
        spec_insert_review(s.drop_last(), x).push(s.last())
    }
}

/// Stable insertion sort by participant identifier.
pub open spec fn spec_sort_reviews(s: Seq<Review>) -> Seq<Review>
    decreases s.len(),
{
    if s.len() == 0 {
        Seq::empty()
    } else {
        spec_insert_review(spec_sort_reviews(s.drop_last()), s.last())
    }
}

/// Inserting one review keeps every element, adds exactly the new one,
/// and keeps the sequence sorted.
pub proof fn lemma_insert_review_props(s: Seq<Review>, x: Review)
    ensures
        spec_insert_review(s, x).len() == s.len() + 1,
        spec_insert_review(s, x).to_multiset() == s.to_multiset().insert(x),
        forall|k: int|
            0 <= k < spec_insert_review(s, x).len() ==> (#[trigger] spec_insert_review(s, x)[k]
                == x || s.contains(spec_insert_review(s, x)[k])),
        sorted_by_participant(s) ==> sorted_by_participant(spec_insert_review(s, x)),
    decreases s.len(),
{
    broadcast use vstd::seq_lib::group_to_multiset_ensures;

    if s.len() == 0 {
        assert(spec_insert_review(s, x) =~= s.push(x));
    } else if s.last().player_steam_id <= x.player_steam_id {
        let r = s.push(x);
        assert forall|k: int| 0 <= k < r.len() implies (r[k] == x || s.contains(r[k])) by {
            if k < s.len() {
                assert(s.contains(s[k]));
            }
        }
        if sorted_by_participant(s) {
            assert forall|i: int, j: int| 0 <= i <= j < r.len() implies r[i].player_steam_id
                <= r[j].player_steam_id by {
                if j == s.len() && i < s.len() {
                    assert(s[i].player_steam_id <= s[s.len() - 1].player_steam_id);
                }
            }
        }
    } else {
        lemma_insert_review_props(s.drop_last(), x);
        let rest = spec_insert_review(s.drop_last(), x);
        let r = rest.push(s.last());
        assert(s =~= s.drop_last().push(s.last()));
        assert(s.drop_last().push(s.last()).to_multiset() == s.drop_last().to_multiset().insert(
            s.last(),
        ));
        assert(rest.to_multiset().insert(s.last()) =~= s.drop_last().to_multiset().insert(
            x,
        ).insert(s.last()));
        assert(s.drop_last().to_multiset().insert(x).insert(s.last())
            =~= s.drop_last().to_multiset().insert(s.last()).insert(x));
        assert(spec_insert_review(s, x).to_multiset() == s.to_multiset().insert(x));
        assert forall|k: int| 0 <= k < r.len() implies (r[k] == x || s.contains(r[k])) by {
            if k < rest.len() {
                if rest[k] != x {
                    assert(s.drop_last().contains(rest[k]));
                    let j = choose|j: int| 0 <= j < s.drop_last().len() && s.drop_last()[j]
                        == rest[k];
                    assert(s[j] == rest[k]);
                    assert(s.contains(rest[k]));
                }
            } else {
                assert(r[k] == s.last());
                assert(s.contains(s[s.len() - 1]));
            }
        }
        if sorted_by_participant(s) {
            assert forall|i: int, j: int|
                0 <= i <= j < s.drop_last().len() implies s.drop_last()[i].player_steam_id
                <= s.drop_last()[j].player_steam_id by {
                assert(s[i].player_steam_id <= s[j].player_steam_id);
            }
            assert(sorted_by_participant(s.drop_last()));
            assert forall|i: int, j: int| 0 <= i <= j < r.len() implies r[i].player_steam_id
                <= r[j].player_steam_id by {
                if j == rest.len() {
                    if i < rest.len() {
                        if rest[i] == x {
                        } else {
                            assert(s.drop_last().contains(rest[i]));
                            let m = choose|m: int|
                                0 <= m < s.drop_last().len() && s.drop_last()[m] == rest[i];
                            assert(s[m].player_steam_id <= s[s.len() - 1].player_steam_id);
                        }
                    }
                }
            }
        }
    }
}

/// Sorting keeps exactly the elements of the input and yields ascending
/// participant order.
pub proof fn lemma_sort_reviews_props(s: Seq<Review>)
    ensures
        sorted_by_participant(spec_sort_reviews(s)),
        spec_sort_reviews(s).to_multiset() == s.to_multiset(),
        spec_sort_reviews(s).len() == s.len(),
    decreases s.len(),
{
    broadcast use vstd::seq_lib::group_to_multiset_ensures;

    if s.len() == 0 {
        assert(s =~= Seq::<Review>::empty());
    } else {
        lemma_sort_reviews_props(s.drop_last());
        lemma_insert_review_props(spec_sort_reviews(s.drop_last()), s.last());
        assert(s =~= s.drop_last().push(s.last()));
        assert(s.drop_last().push(s.last()).to_multiset() == s.drop_last().to_multiset().insert(
            s.last(),
        ));
    }
}

/// Inserts one review into a vector already in ascending participant order,
/// after every element with a smaller or equal participant identifier.
fn insert_sorted(v: &mut Vec<Review>, x: Review)
    ensures
        final(v)@ == spec_insert_review(old(v)@, x),
    decreases old(v)@.len(),
{
    if v.len() == 0 {
        v.push(x);
        assert(v@ =~= spec_insert_review(old(v)@, x));
    } else {
        let last = v[v.len() - 1];
        if last.player_steam_id <= x.player_steam_id {
            v.push(x);
        } else {
            let popped = v.pop().unwrap();
            proof {
                assert(v@ =~= old(v)@.drop_last());
            }
            insert_sorted(v, x);
            v.push(popped);
        }
    }
}

/// Sorts reviews ascending by participant identifier (stable insertion sort).
fn sort_reviews(input: Vec<Review>) -> (out: Vec<Review>)
    ensures
        out@ == spec_sort_reviews(input@),
{
    let mut out: Vec<Review> = Vec::new();
    let mut i: usize = 0;
    while i < input.len()
        invariant
            i <= input@.len(),
            out@ == spec_sort_reviews(input@.take(i as int)),
        decreases input@.len() - i,
    {
        insert_sorted(&mut out, input[i]);
        proof {
            assert(input@.take(i as int + 1).drop_last() =~= input@.take(i as int));
            assert(input@.take(i as int + 1).last() == input@[i as int]);
        }
        i = i + 1;
    }
    proof {
        assert(input@.take(input@.len() as int) =~= input@);
    }
    out
}

/// What listing the reviews of one (category, leaderboard) pair returns:
/// both names are resolved to identifiers; when both resolve, the matching
/// reviews sorted ascending by participant identifier; when either name is
/// unknown, the empty sequence — never an error.
pub open spec fn spec_list_reviews(store: Store, category: Seq<u8>, leaderboard: Seq<u8>) -> Seq<
    Review,
> {
    match (spec_resolve(store.categories@, category), spec_resolve(store.leaderboards@, leaderboard)) {
        (Some(cid), Some(lid)) => spec_sort_reviews(spec_matching(store.reviews@, cid, lid)),
        _ => Seq::empty(),
    }
}

/// The reviews of one (category, leaderboard) pair, ascending by participant
/// identifier. An unknown category or leaderboard name yields the empty list,
/// indistinguishable from a pair that merely has no reviews.
pub fn list_reviews(store: &Store, category_name: &Vec<u8>, leaderboard_name: &Vec<u8>) -> (reviews:
    Vec<Review>)
    ensures
        reviews@ == spec_list_reviews(*store, category_name@, leaderboard_name@),
        sorted_by_participant(reviews@),
{
    let cid_opt = resolve(&store.categories, category_name);
    let lid_opt = resolve(&store.leaderboards, leaderboard_name);
    match (cid_opt, lid_opt) {
        (Some(cid), Some(lid)) => {
            let matching = collect_matching(&store.reviews, cid, lid);
            let sorted = sort_reviews(matching);
            proof {
                lemma_sort_reviews_props(spec_matching(store.reviews@, cid, lid));
            }
            sorted
        },
        _ => Vec::new(),
    }
}

/// Listing the reviews of a pair returns exactly the matching reviews:
/// none dropped, none introduced, sorted ascending by participant identifier.
pub proof fn lemma_list_reviews_exact(store: Store, category: Seq<u8>, leaderboard: Seq<u8>, cid: i64, lid: i64)
    requires
        spec_resolve(store.categories@, category) == Some(cid),
        spec_resolve(store.leaderboards@, leaderboard) == Some(lid),
    ensures
        spec_list_reviews(store, category, leaderboard).to_multiset() == spec_matching(
            store.reviews@,
            cid,
            lid,
        ).to_multiset(),
        sorted_by_participant(spec_list_reviews(store, category, leaderboard)),
{
    lemma_sort_reviews_props(spec_matching(store.reviews@, cid, lid));
}

/// The selection is exactly a filter of the review relation on the two
/// identifiers, keeping row order.
pub proof fn lemma_matching_is_filter(rows: Seq<ReviewRow>, cid: i64, lid: i64)
    ensures
        spec_matching(rows, cid, lid) == rows.filter(
            |rr: ReviewRow| rr.category_id == cid && rr.leaderboard_id == lid,
        ).map_values(|rr: ReviewRow| rr.review),
    decreases rows.len(),
{
    reveal(Seq::filter);
    let pred = |rr: ReviewRow| rr.category_id == cid && rr.leaderboard_id == lid;
    let project = |rr: ReviewRow| rr.review;
    if rows.len() == 0 {
        assert(spec_matching(rows, cid, lid) =~= rows.filter(pred).map_values(project));
    } else {
        lemma_matching_is_filter(rows.drop_last(), cid, lid);
        if pred(rows.last()) {
            assert(rows.filter(pred).map_values(project) =~= rows.drop_last().filter(
                pred,
            ).map_values(project).push(rows.last().review));
        } else {
            assert(rows.filter(pred).map_values(project) =~= rows.drop_last().filter(
                pred,
            ).map_values(project));
        }
    }
}

/// Pairwise-distinct participant identifiers.
pub open spec fn distinct_participants(s: Seq<Review>) -> bool {
    forall|i: int, j: int|
        0 <= i < j < s.len() ==> s[i].player_steam_id != s[j].player_steam_id
}

/// Every review selected for a pair comes from some row of the relation that
/// carries both identifiers.
proof fn lemma_matching_row_witness(rows: Seq<ReviewRow>, cid: i64, lid: i64, r: Review)
    requires
        spec_matching(rows, cid, lid).contains(r),
    ensures
        exists|i: int|
            0 <= i < rows.len() && rows[i].category_id == cid && rows[i].leaderboard_id == lid
                && rows[i].review == r,
    decreases rows.len(),
{
    if rows.len() == 0 {
    } else {
        let m = spec_matching(rows, cid, lid);
        let rest = spec_matching(rows.drop_last(), cid, lid);
        let k = choose|k: int| 0 <= k < m.len() && m[k] == r;
        if rows.last().category_id == cid && rows.last().leaderboard_id == lid && k == rest.len() {
            assert(rows[rows.len() - 1].review == r);
        } else {
            assert(rest[k] == r);
            assert(rest.contains(r));
            lemma_matching_row_witness(rows.drop_last(), cid, lid, r);
            let i = choose|i: int|
                0 <= i < rows.drop_last().len() && rows.drop_last()[i].category_id == cid
                    && rows.drop_last()[i].leaderboard_id == lid && rows.drop_last()[i].review
                    == r;
            assert(rows[i] == rows.drop_last()[i]);
        }
    }
}

/// When no two rows of a relation share (category, leaderboard, participant),
/// the reviews selected for any one pair carry pairwise-distinct participants.
proof fn lemma_matching_distinct(rows: Seq<ReviewRow>, cid: i64, lid: i64)
    requires
        forall|i: int, j: int|
            0 <= i < j < rows.len() ==> !(rows[i].category_id == rows[j].category_id
                && rows[i].leaderboard_id == rows[j].leaderboard_id
                && rows[i].review.player_steam_id == rows[j].review.player_steam_id),
    ensures
        distinct_participants(spec_matching(rows, cid, lid)),
    decreases rows.len(),
{
    if rows.len() == 0 {
    } else {
        lemma_matching_distinct(rows.drop_last(), cid, lid);
        let rest = spec_matching(rows.drop_last(), cid, lid);
        if rows.last().category_id == cid && rows.last().leaderboard_id == lid {
            assert forall|k: int| 0 <= k < rest.len() implies rest[k].player_steam_id
                != rows.last().review.player_steam_id by {
                assert(rest.contains(rest[k]));
                lemma_matching_row_witness(rows.drop_last(), cid, lid, rest[k]);
                let w = choose|w: int|
                    0 <= w < rows.drop_last().len() && rows.drop_last()[w].category_id == cid
                        && rows.drop_last()[w].leaderboard_id == lid && rows.drop_last()[w].review
                        == rest[k];
                assert(rows[w] == rows.drop_last()[w]);
                assert(!(rows[w].category_id == rows[rows.len() - 1].category_id
                    && rows[w].leaderboard_id == rows[rows.len() - 1].leaderboard_id
                    && rows[w].review.player_steam_id == rows[rows.len()
                    - 1].review.player_steam_id));
            }
        }
    }
}

/// Distinct participants survive any reordering that keeps the elements.
proof fn lemma_distinct_transfers(a: Seq<Review>, b: Seq<Review>)
    requires
        a.to_multiset() == b.to_multiset(),
        distinct_participants(a),
    ensures
        distinct_participants(b),
{
    broadcast use vstd::seq_lib::group_to_multiset_ensures;
    broadcast use vstd::multiset::group_multiset_axioms;

    assert forall|i: int, j: int| 0 <= i < j < b.len() implies b[i].player_steam_id
        != b[j].player_steam_id by {
        if b[i].player_steam_id == b[j].player_steam_id {
            if b[i] == b[j] {
                let v = b[i];
                let s0 = b.subrange(0, j);
                let s1 = b.subrange(j, b.len() as int);
                assert(b =~= s0 + s1);
                vstd::seq_lib::lemma_multiset_commutative(s0, s1);
                assert(s0[i] == v);
                assert(s0.contains(v));
                assert(s1[0] == v);
                assert(s1.contains(v));
                assert(b.to_multiset().count(v) >= 2);
                assert(a.no_duplicates());
                a.lemma_multiset_has_no_duplicates();
                assert(a.to_multiset().contains(v));
            } else {
                assert(b.contains(b[i]));
                assert(b.contains(b[j]));
                assert(b.to_multiset().count(b[i]) > 0);
                assert(b.to_multiset().count(b[j]) > 0);
                assert(a.to_multiset().count(b[i]) > 0);
                assert(a.to_multiset().count(b[j]) > 0);
                assert(a.contains(b[i]));
                assert(a.contains(b[j]));
                let m = choose|m: int| 0 <= m < a.len() && a[m] == b[i];
                let n = choose|n: int| 0 <= n < a.len() && a[n] == b[j];
                assert(m != n);
            }
        }
    }
}

/// In a well-formed store — unique names, at most one review per
/// (category, leaderboard, participant) — any listed review sequence is
/// strictly ascending: sorted, with pairwise-distinct participant
/// identifiers. Together with the element-exactness this pins the listing
/// completely, so repeated reads cannot reorder ties.
pub proof fn lemma_wf_listing_strictly_ascending(store: Store, category: Seq<u8>, leaderboard: Seq<u8>)
    requires
        store.wf(),
    ensures
        sorted_by_participant(spec_list_reviews(store, category, leaderboard)),
        distinct_participants(spec_list_reviews(store, category, leaderboard)),
{
    match (spec_resolve(store.categories@, category), spec_resolve(
        store.leaderboards@,
        leaderboard,
    )) {
        (Some(cid), Some(lid)) => {
            let matching = spec_matching(store.reviews@, cid, lid);
            lemma_matching_distinct(store.reviews@, cid, lid);
            lemma_sort_reviews_props(matching);
            lemma_distinct_transfers(matching, spec_sort_reviews(matching));
        },
        _ => {},
    }
}

/// A pair with an unknown category or leaderboard name yields the empty
/// list — never an error and never a not-found outcome.
pub proof fn lemma_unknown_name_empty(store: Store, category: Seq<u8>, leaderboard: Seq<u8>)
    requires
        spec_resolve(store.categories@, category) is None || spec_resolve(
            store.leaderboards@,
            leaderboard,
        ) is None,
    ensures
        spec_list_reviews(store, category, leaderboard) == Seq::<Review>::empty(),
{
}

} // verus!
