//! Finding the memories that feedback disagreed with.

use vstd::prelude::*;

use crate::db::{self, MemoryRow, RowView};
use crate::ids::{self, parse_id, MemoryId};
use crate::json::{self, Json, JsonView};
use crate::text::{self, contains_text, str_eq};

verus! {

/// Whether a row with the given tags is feedback that disagrees.
pub open spec fn is_disagreement(tags: Seq<Seq<char>>) -> bool {
    tags.contains("feedback"@) && tags.contains("disagree"@)
}

/// Whether a row with the given tags is feedback that disagrees.
pub fn tags_disagree(tags: &[String]) -> (r: bool)
    ensures
        r == is_disagreement(text::texts(tags@)),
{
    contains_text(tags, "feedback") && contains_text(tags, "disagree")
}

/// The memory that an external reference names: its kind is `memory` and its
/// value a UUID.
pub open spec fn referenced_memory(entry: JsonView) -> Option<MemoryId> {
    match (entry.text_member("kind"@), entry.text_member("ref"@)) {
        (Some(kind), Some(value)) => if kind == "memory"@ && ids::uuid_parse(value) is Ok {
            Some(ids::uuid_parse(value)->Ok_0)
        } else {
            None
        },
        _ => None,
    }
}

/// The first memory that external references name, from position `i` on.
pub open spec fn first_memory(entries: Seq<JsonView>, i: int) -> Option<MemoryId>
    decreases entries.len() - i,
{
    if i < 0 || i >= entries.len() {
        None
    } else if referenced_memory(entries[i]) is Some {
        referenced_memory(entries[i])
    } else {
        first_memory(entries, i + 1)
    }
}

/// The memory that a row disagrees with, where it does.
pub open spec fn disagree_target(row: RowView) -> Option<MemoryId> {
    if !is_disagreement(row.tags) {
        None
    } else {
        match row.external_refs {
            None => None,
            Some(refs) => match refs.elements() {
                None => None,
                Some(entries) => first_memory(entries, 0),
            },
        }
    }
}

/// The memories that rows disagree with, in order.
pub open spec fn disagree_targets(rows: Seq<RowView>) -> Seq<MemoryId>
    decreases rows.len(),
{
    if rows.len() == 0 {
        Seq::empty()
    } else {
        let before = disagree_targets(rows.drop_last());
        match disagree_target(rows.last()) {
            Some(id) => before.push(id),
            None => before,
        }
    }
}

fn memory_in(entry: &Json) -> (r: Option<MemoryId>)
    ensures
        r == referenced_memory(entry@),
{
    match entry.get_str("kind") {
        None => None,
        Some(kind) => match entry.get_str("ref") {
            None => None,
            Some(value) => {
                if str_eq(kind, "memory") {
                    match parse_id(value) {
                        Ok(id) => Some(id),
                        Err(_) => None,
                    }
                } else {
                    None
                }
            },
        },
    }
}

fn target_of(row: &MemoryRow) -> (r: Option<MemoryId>)
    ensures
        r == disagree_target(row@),
{
    if !tags_disagree(row.tags.as_slice()) {
        return None;
    }
    let refs = match &row.external_refs {
        None => {
            return None;
        },
        Some(refs) => refs,
    };
    let arr = match refs.as_array() {
        None => {
            return None;
        },
        Some(arr) => arr,
    };
    let ghost entries = json::views(arr@);
    for i in 0..arr.len()
        invariant
            entries == json::views(arr@),
            disagree_target(row@) == first_memory(entries, i as int),
    {
        assert(entries[i as int] == arr@[i as int]@);
        let found = memory_in(&arr[i]);
        if found.is_some() {
            return found;
        }
    }
    None
}

/// The memories that feedback among the rows disagreed with: of each row that is
/// tagged as feedback that disagrees, the first memory that its external
/// references name.
pub fn find_disagree_targets(rows: &[MemoryRow]) -> (r: Vec<MemoryId>)
    ensures
        r@ == disagree_targets(db::row_views(rows@)),
{
    let ghost views = db::row_views(rows@);
    let mut r: Vec<MemoryId> = Vec::new();
    for i in 0..rows.len()
        invariant
            views == db::row_views(rows@),
            r@ == disagree_targets(views.take(i as int)),
    {
        assert(views.take(i + 1).drop_last() =~= views.take(i as int));
        assert(views.take(i + 1).last() == rows@[i as int]@);
        match target_of(&rows[i]) {
            Some(id) => {
                r.push(id);
            },
            None => {},
        }
    }
    assert(views.take(views.len() as int) =~= views);
    r
}

/// A row is feedback that disagrees where both tags are on it.
pub proof fn lemma_disagreement_has_both_tags(tags: Seq<String>)
    ensures
        is_disagreement(text::texts(tags)) <==> (exists|i: int|
            0 <= i < tags.len() && (#[trigger] tags[i])@ == "feedback"@) && (exists|i: int|
            0 <= i < tags.len() && (#[trigger] tags[i])@ == "disagree"@),
{
    let views = text::texts(tags);
    assert(views.len() == tags.len());
    assert forall|i: int| 0 <= i < tags.len() implies #[trigger] views[i] == tags[i]@ by {}
    if views.contains("feedback"@) {
        let i = choose|i: int| 0 <= i < views.len() && views[i] == "feedback"@;
        assert(tags[i]@ == "feedback"@);
    }
    if views.contains("disagree"@) {
        let i = choose|i: int| 0 <= i < views.len() && views[i] == "disagree"@;
        assert(tags[i]@ == "disagree"@);
    }
    if exists|i: int| 0 <= i < tags.len() && (#[trigger] tags[i])@ == "feedback"@ {
        let i = choose|i: int| 0 <= i < tags.len() && (#[trigger] tags[i])@ == "feedback"@;
        assert(views[i] == "feedback"@);
    }
    if exists|i: int| 0 <= i < tags.len() && (#[trigger] tags[i])@ == "disagree"@ {
        let i = choose|i: int| 0 <= i < tags.len() && (#[trigger] tags[i])@ == "disagree"@;
        assert(views[i] == "disagree"@);
    }
}

/// Whether a reference is to the memory.
pub open spec fn refers_to(entry: JsonView, id: MemoryId) -> bool {
    &&& entry.member("kind"@) == Some(JsonView::Text("memory"@))
    &&& entry.member("ref"@) matches Some(JsonView::Text(value)) && ids::uuid_parse(value) == Ok::<
        u128,
        Seq<char>,
    >(id)
}

/// Whether a reference is to no memory.
pub open spec fn refers_to_none(entry: JsonView) -> bool {
    forall|id: MemoryId| !#[trigger] refers_to(entry, id)
}

proof fn lemma_first_memory(entries: Seq<JsonView>, from: int)
    requires
        0 <= from <= entries.len(),
    ensures
        match first_memory(entries, from) {
            Some(id) => exists|k: int|
                from <= k < entries.len() && refers_to(#[trigger] entries[k], id) && forall|j: int|
                    from <= j < k ==> refers_to_none(#[trigger] entries[j]),
            None => forall|j: int| from <= j < entries.len() ==> refers_to_none(#[trigger] entries[j]),
        },
    decreases entries.len() - from,
{
    if from < entries.len() {
        match referenced_memory(entries[from]) {
            Some(id) => {
                assert(refers_to(entries[from], id));
            },
            None => {
                assert(refers_to_none(entries[from]));
                lemma_first_memory(entries, from + 1);
                match first_memory(entries, from + 1) {
                    Some(id) => {
                        let k = choose|k: int|
                            from + 1 <= k < entries.len() && refers_to(#[trigger] entries[k], id)
                                && forall|j: int|
                                from + 1 <= j < k ==> refers_to_none(#[trigger] entries[j]);
                        assert forall|j: int| from <= j < k implies refers_to_none(
                            #[trigger] entries[j],
                        ) by {}
                        assert(refers_to(entries[k], id));
                    },
                    None => {},
                }
            },
        }
    }
}

/// A row disagrees with the first memory that it refers to, and with none where it is no
/// feedback that disagrees.
pub proof fn lemma_target_is_the_first_memory(row: RowView, entries: Seq<JsonView>)
    ensures
        !(row.tags.contains("feedback"@) && row.tags.contains("disagree"@)) ==> disagree_target(row)
            is None,
        row.external_refs is None ==> disagree_target(row) is None,
        row.tags.contains("feedback"@) && row.tags.contains("disagree"@) && row.external_refs
            == Some(JsonView::Array(entries)) ==> match disagree_target(row) {
            Some(id) => exists|k: int|
                0 <= k < entries.len() && refers_to(#[trigger] entries[k], id) && forall|j: int|
                    0 <= j < k ==> refers_to_none(#[trigger] entries[j]),
            None => forall|j: int| 0 <= j < entries.len() ==> refers_to_none(#[trigger] entries[j]),
        },
{
    lemma_first_memory(entries, 0);
}

/// The rows are gone through one by one, in their order.
pub proof fn lemma_targets_row_by_row(a: Seq<RowView>, b: Seq<RowView>, row: RowView)
    ensures
        disagree_targets(a + b) == disagree_targets(a) + disagree_targets(b),
        disagree_targets(seq![row]) == match disagree_target(row) {
            Some(id) => seq![id],
            None => Seq::empty(),
        },
    decreases b.len(),
{
    reveal_with_fuel(disagree_targets, 2);
    assert(seq![row].drop_last() =~= Seq::<RowView>::empty());
    assert(disagree_targets(seq![row]) =~= match disagree_target(row) {
        Some(id) => seq![id],
        None => Seq::empty(),
    });
    if b.len() == 0 {
        assert(a + b =~= a);
        assert(disagree_targets(a + b) =~= disagree_targets(a) + disagree_targets(b));
    } else {
        lemma_targets_row_by_row(a, b.drop_last(), row);
        assert((a + b).drop_last() =~= a + b.drop_last());
        assert((a + b).last() == b.last());
        assert(disagree_targets(a + b) =~= disagree_targets(a) + disagree_targets(b));
    }
}

} // verus!
