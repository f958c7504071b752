//! Memory identifiers: UUIDs, held as 128-bit numbers.

use vstd::prelude::*;

verus! {

/// The identifier of a memory: the 128 bits of a UUID, most significant first.
/// The order of the numbers is the order of the UUIDs.
pub type MemoryId = u128;

/// What `uuid::Uuid::parse_str` makes of a text: the UUID's 128 bits, or the
/// words in which it says what is wrong.
pub uninterp spec fn uuid_parse(s: Seq<char>) -> Result<u128, Seq<char>>;

/// The 32 lower-case hexadecimal digits of an identifier.
pub open spec fn id_digits(id: u128) -> Seq<char> {
    Seq::new(
        32,
        |i: int|
            crate::text::hex_digit(
                (id as int / vstd::arithmetic::power::pow(16, (31 - i) as nat)) % 16,
            ),
    )
}

/// The hyphenated text of an identifier: digits in groups of 8, 4, 4, 4 and 12.
pub open spec fn id_text(id: u128) -> Seq<char> {
    let d = id_digits(id);
    d.subrange(0, 8) + "-"@ + d.subrange(8, 12) + "-"@ + d.subrange(12, 16) + "-"@ + d.subrange(
        16,
        20,
    ) + "-"@ + d.subrange(20, 32)
}

/// Parses a UUID. Calls `uuid::Uuid::parse_str`, and claims that what comes back
/// depends on the text alone; which texts are UUIDs is not stated here.
#[verifier::external_body]
pub(crate) fn parse_id(s: &str) -> (r: Result<MemoryId, String>)
    ensures
        match r {
            Ok(id) => uuid_parse(s@) matches Ok(v) && v == id,
            Err(e) => uuid_parse(s@) matches Err(w) && w == e@,
        },
{
    match uuid::Uuid::parse_str(s) {
        Ok(u) => Ok(u.as_u128()),
        Err(e) => Err(e.to_string()),
    }
}

/// The text of an identifier. Calls `to_string` on a `uuid::Uuid`, which writes
/// the hyphenated lower-case form, and claims that `uuid::Uuid::parse_str` reads
/// that form back as the same UUID.
#[verifier::external_body]
pub(crate) fn format_id(id: MemoryId) -> (r: String)
    ensures
        r@ == id_text(id),
        uuid_parse(r@) is Ok,
        uuid_parse(r@)->Ok_0 == id,
{
    uuid::Uuid::from_u128(id).to_string()
}

/// A new identifier. Calls `uuid::Uuid::now_v7`; nothing is claimed of the
/// result, which is another at each call.
#[verifier::external_body]
pub(crate) fn fresh_id() -> MemoryId {
    uuid::Uuid::now_v7().as_u128()
}

/// Whether a list holds an identifier.
pub(crate) fn contains_id(ids: &[MemoryId], id: MemoryId) -> (r: bool)
    ensures
        r == ids@.contains(id),
{
    for i in 0..ids.len()
        invariant
            forall|j: int| 0 <= j < i ==> ids@[j] != id,
    {
        if ids[i] == id {
            return true;
        }
    }
    false
}

/// The order of identifiers.
pub open spec fn id_order() -> spec_fn(MemoryId, MemoryId) -> bool {
    |a: MemoryId, b: MemoryId| a <= b
}

/// The identifiers in ascending order.
pub open spec fn in_order(ids: Seq<MemoryId>) -> Seq<MemoryId> {
    ids.sort_by(id_order())
}

/// The identifiers in ascending order.
pub(crate) fn sorted(ids: &[MemoryId]) -> (r: Vec<MemoryId>)
    ensures
        r@ == in_order(ids@),
{
    broadcast use vstd::seq_lib::group_to_multiset_ensures;

    let mut r: Vec<MemoryId> = Vec::new();
    assert(r@ =~= ids@.take(0));
    for i in 0..ids.len()
        invariant
            r@.to_multiset() == ids@.take(i as int).to_multiset(),
            forall|k: int, j: int| 0 <= k < j < r@.len() ==> r@[k] <= r@[j],
    {
        broadcast use vstd::seq_lib::group_to_multiset_ensures;

        let id: MemoryId = ids[i];
        let mut p: usize = 0;
        while p < r.len() && r[p] <= id
            invariant
                p <= r@.len(),
                forall|k: int| 0 <= k < p ==> r@[k] <= id,
            decreases r@.len() - p,
        {
            p = p + 1;
        }
        let ghost before = r@;
        r.insert(p, id);
        assert(ids@.take(i + 1) =~= ids@.take(i as int).push(id));
        assert(r@ =~= before.insert(p as int, id));
        proof {
            vstd::seq_lib::to_multiset_insert(before, p as int, id);
        }
    }
    assert(ids@.take(ids@.len() as int) =~= ids@);
    proof {
        ids@.lemma_sort_by_ensures(id_order());
        vstd::seq_lib::lemma_sorted_unique(r@, in_order(ids@), id_order());
    }
    r
}

/// The ascending order of identifiers depends only on which they are, and how
/// often each occurs.
pub proof fn lemma_in_order_ignores_order(a: Seq<MemoryId>, b: Seq<MemoryId>)
    requires
        a.to_multiset() == b.to_multiset(),
    ensures
        in_order(a) == in_order(b),
{
    a.lemma_sort_by_ensures(id_order());
    b.lemma_sort_by_ensures(id_order());
    vstd::seq_lib::lemma_sorted_unique(in_order(a), in_order(b), id_order());
}

/// Identifiers in order are the same identifiers, none before a lower one.
pub proof fn lemma_in_order_is_ascending(ids: Seq<MemoryId>)
    ensures
        in_order(ids).to_multiset() == ids.to_multiset(),
        in_order(ids).len() == ids.len(),
        forall|i: int, j: int|
            0 <= i < j < ids.len() ==> #[trigger] in_order(ids)[i] <= #[trigger] in_order(ids)[j],
{
    broadcast use vstd::seq_lib::group_to_multiset_ensures;

    ids.lemma_sort_by_ensures(id_order());
    let r = in_order(ids);
    assert(r.len() == r.to_multiset().len());
    assert(ids.len() == ids.to_multiset().len());
    assert forall|i: int, j: int| 0 <= i < j < ids.len() implies #[trigger] r[i]
        <= #[trigger] r[j] by {
        assert(id_order()(r[i], r[j]));
    }
}

} // verus!
