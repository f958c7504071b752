//! Writing clusters down as consolidated memories.

use vstd::prelude::*;
use vstd::string::*;

use crate::db::{self, MemoryRow, RowView};
use crate::facets::{Facets, FacetsView};
use crate::hash::{self, sha256_digest};
use crate::ids::{self, format_id, fresh_id, sorted, MemoryId};
use crate::synthesis::{Cluster, ClusterView, Contradiction, ContradictionView};
use crate::text::{self, concat2, concat4, hex_of, join};
use crate::time::Timestamp;

verus! {

// ---- Confidence -------------------------------------------------------------------

/// The confidence, in hundredths, in a claim with the given number of sources:
/// one half, and five hundredths for each source, up to nine tenths.
pub open spec fn confidence_for(cluster_size: int) -> int {
    if 50 + 5 * cluster_size < 90 {
        50 + 5 * cluster_size
    } else {
        90
    }
}

/// The confidence, in hundredths, in a claim with the given number of sources.
pub fn emission_confidence(cluster_size: usize) -> (r: u32)
    ensures
        r == confidence_for(cluster_size as int),
{
    if cluster_size < 8 {
        50 + 5 * (cluster_size as u32)
    } else {
        90
    }
}

/// The bits of the single-precision number nearest to a confidence in hundredths,
/// for the confidences that there are.
pub open spec fn hundredths_bits(n: int) -> u32 {
    if n == 50 {
        0x3f00_0000
    } else if n == 55 {
        0x3f0c_cccd
    } else if n == 60 {
        0x3f19_999a
    } else if n == 65 {
        0x3f26_6666
    } else if n == 70 {
        0x3f33_3333
    } else if n == 75 {
        0x3f40_0000
    } else if n == 80 {
        0x3f4c_cccd
    } else if n == 85 {
        0x3f59_999a
    } else {
        0x3f66_6666
    }
}

/// The bits of the confidence in a claim with the given number of sources.
pub fn emission_confidence_bits(cluster_size: usize) -> (r: u32)
    ensures
        r == hundredths_bits(confidence_for(cluster_size as int)),
{
    let n: u32 = emission_confidence(cluster_size);
    if n == 50 {
        0x3f00_0000
    } else if n == 55 {
        0x3f0c_cccd
    } else if n == 60 {
        0x3f19_999a
    } else if n == 65 {
        0x3f26_6666
    } else if n == 70 {
        0x3f33_3333
    } else if n == 75 {
        0x3f40_0000
    } else if n == 80 {
        0x3f4c_cccd
    } else if n == 85 {
        0x3f59_999a
    } else {
        0x3f66_6666
    }
}

/// More sources never lower the confidence; it is at least one half and at most
/// nine tenths.
pub proof fn lemma_confidence_grows_to_a_cap(fewer: int, more: int)
    requires
        0 <= fewer <= more,
    ensures
        50 <= confidence_for(fewer) <= confidence_for(more) <= 90,
        crate::floats::place(hundredths_bits(confidence_for(fewer))) <= crate::floats::place(
            hundredths_bits(confidence_for(more)),
        ),
{
}

/// A claim without sources would have a confidence of one half; each source adds five
/// hundredths, until nine tenths are reached, and none adds more.
pub proof fn lemma_each_source_adds_five_hundredths(n: int)
    requires
        0 <= n,
    ensures
        confidence_for(0) == 50,
        n < 8 ==> confidence_for(n + 1) == confidence_for(n) + 5,
        n >= 8 ==> confidence_for(n) == 90,
{
}

/// The bits of a confidence are those of the number nearest to it.
pub proof fn lemma_confidence_bits_are_nearest(n: int)
    requires
        0 <= n,
    ensures
        crate::floats::is_nearest(hundredths_bits(confidence_for(n)), confidence_for(n), 100),
{
    vstd::arithmetic::power2::lemma2_to64();
    let bits = hundredths_bits(confidence_for(n));
    assert(crate::floats::exponent(bits) == 126);
}

// ---- Keys -------------------------------------------------------------------------

/// The texts of identifiers.
pub open spec fn id_texts(source_ids: Seq<MemoryId>) -> Seq<Seq<char>> {
    source_ids.map_values(|id: MemoryId| ids::id_text(id))
}

/// What the key of a consolidated memory is made from: its claim, and its sources
/// in ascending order.
pub open spec fn reflect_material(claim: Seq<char>, source_ids: Seq<MemoryId>) -> Seq<char> {
    "reflect:"@ + claim + ":"@ + text::joined(id_texts(ids::in_order(source_ids)), ","@)
}

/// The key of the memory whose key material has the given digest: the first
/// sixteen bytes of it.
pub open spec fn reflect_key_of_digest(digest: Seq<u8>) -> Seq<char> {
    "reflect-"@ + text::hex(digest.take(16))
}

/// The key of a consolidated memory.
pub open spec fn reflect_key(claim: Seq<char>, source_ids: Seq<MemoryId>) -> Seq<char> {
    reflect_key_of_digest(hash::sha256(text::utf8(reflect_material(claim, source_ids))))
}

/// What the key of a consolidated memory is made from.
pub fn reflect_key_material(cluster: &Cluster) -> (r: String)
    ensures
        r@ == reflect_material(cluster.representative_claim@, cluster.source_ids@),
{
    let in_order = sorted(cluster.source_ids.as_slice());
    let mut parts: Vec<String> = Vec::new();
    for i in 0..in_order.len()
        invariant
            parts@.len() == i,
            forall|j: int| 0 <= j < i ==> (#[trigger] parts@[j])@ == ids::id_text(in_order@[j]),
    {
        parts.push(format_id(in_order[i]));
    }
    assert(text::texts(parts@) =~= id_texts(in_order@));
    concat4(
        "reflect:",
        cluster.representative_claim.as_str(),
        ":",
        join(parts.as_slice(), ",").as_str(),
    )
}

/// The key of the memory whose key material has the given digest.
pub fn reflect_key_from_digest(digest: &[u8]) -> (r: String)
    requires
        digest@.len() >= 16,
    ensures
        r@ == reflect_key_of_digest(digest@),
{
    concat2("reflect-", hex_of(digest, 16).as_str())
}

/// The key of the consolidated memory that a cluster becomes: the same claim from
/// the same sources has the same key.
pub fn reflect_idempotency_key(cluster: &Cluster) -> (r: String)
    ensures
        r@ == reflect_key(cluster.representative_claim@, cluster.source_ids@),
{
    let material = reflect_key_material(cluster);
    let digest = sha256_digest(material.as_str().as_bytes());
    reflect_key_from_digest(digest.as_slice())
}

/// The key does not depend on the order of the sources: to emit the same cluster
/// again, with its sources in another order, is a replay.
pub proof fn lemma_key_ignores_source_order(
    claim: Seq<char>,
    a: Seq<MemoryId>,
    b: Seq<MemoryId>,
)
    requires
        a.to_multiset() == b.to_multiset(),
    ensures
        reflect_key(claim, a) == reflect_key(claim, b),
{
    ids::lemma_in_order_ignores_order(a, b);
}

/// Two claims from the same sources have the same key material only where they are the
/// same claim.
pub proof fn lemma_material_tells_claims_apart(
    a: Seq<char>,
    b: Seq<char>,
    source_ids: Seq<MemoryId>,
)
    requires
        reflect_material(a, source_ids) == reflect_material(b, source_ids),
    ensures
        a == b,
{
    let head = "reflect:"@;
    let x = reflect_material(a, source_ids);
    let y = reflect_material(b, source_ids);
    assert(x.len() == y.len());
    assert(a.len() == b.len());
    assert(x.subrange(head.len() as int, (head.len() + a.len()) as int) =~= a);
    assert(y.subrange(head.len() as int, (head.len() + b.len()) as int) =~= b);
}

// ---- Consolidated memories ----------------------------------------------------------

/// Whether a row is one that was just written down by a synthesis: for the profile, at
/// the time, with the facets as they are, list by list, and not yet superseded,
/// confirmed or withdrawn; and with a confidence of half and five hundredths for each
/// of the sources, nine tenths at most.
pub open spec fn is_written_down(
    row: MemoryRow,
    profile: Seq<char>,
    now: Timestamp,
    facets: Facets,
    sources: nat,
) -> bool {
    &&& row.profile@ == profile
    &&& row.event_time == now
    &&& row.record_time == now
    &&& row.source is Some && row.source->0@ == "reflect"@
    &&& row.tags@.len() >= 2 && row.tags@[0]@ == "reflect"@ && row.tags@[1]@ == "synthesised"@
    &&& row.external_refs is None
    &&& row.metadata is None
    &&& text::same_texts(row.facets.domains@, facets.domains@)
    &&& text::same_texts(row.facets.skills@, facets.skills@)
    &&& text::same_texts(row.facets.projects@, facets.projects@)
    &&& text::same_texts(row.facets.situations@, facets.situations@)
    &&& row.superseded_by is None
    &&& row.reinforcement_count == 0
    &&& row.last_reinforced_at is None
    &&& row.invalidated_at is None
    &&& row.confidence is Some
    &&& sources < 8 ==> crate::floats::is_nearest(row.confidence->0, 50 + 5 * (sources as int), 100)
    &&& sources >= 8 ==> crate::floats::is_nearest(row.confidence->0, 90, 100)
}

/// Whether a row and its links say what a cluster says: its claim and its type, drawn
/// from each of its sources, in order.
pub open spec fn says_what_the_cluster_says(
    row: MemoryRow,
    links: Seq<(MemoryId, String)>,
    cluster: Cluster,
) -> bool {
    &&& row.content@ == cluster.representative_claim@
    &&& row.memory_type@ == cluster.memory_type@
    &&& row.tags@.len() == 2
    &&& links.len() == cluster.source_ids@.len()
    &&& forall|i: int|
        0 <= i < links.len() ==> (#[trigger] links[i]).0 == cluster.source_ids@[i] && links[i].1@
            == "synthesised_from"@
}

/// A cluster becomes a row that says what the cluster says, with a link to each of its
/// sources and to nothing else.
pub proof fn lemma_cluster_is_written_down(
    cluster: Cluster,
    profile: Seq<char>,
    now: Timestamp,
    facets: Facets,
    row: MemoryRow,
    links: Seq<(MemoryId, String)>,
)
    requires
        is_emitted(row, links, cluster@, profile, now, facets@),
    ensures
        is_written_down(row, profile, now, facets, cluster.source_ids@.len()),
        says_what_the_cluster_says(row, links, cluster),
{
    let n = cluster.source_ids@.len();
    lemma_confidence_bits_are_nearest(n as int);
    text::lemma_same_texts(row.facets.domains@, facets.domains@);
    text::lemma_same_texts(row.facets.skills@, facets.skills@);
    text::lemma_same_texts(row.facets.projects@, facets.projects@);
    text::lemma_same_texts(row.facets.situations@, facets.situations@);
    let tags = text::texts(row.tags@);
    assert(tags.len() == row.tags@.len());
    assert(tags[0] == row.tags@[0]@);
    assert(tags[1] == row.tags@[1]@);
    let views = db::link_views(links);
    assert(views.len() == links.len());
    assert forall|i: int| 0 <= i < links.len() implies (#[trigger] links[i]).0
        == cluster.source_ids@[i] && links[i].1@ == "synthesised_from"@ by {
        assert(views[i] == (links[i].0, links[i].1@));
    }
}

/// The row that a cluster becomes.
pub open spec fn consolidated_row(
    cluster: ClusterView,
    profile: Seq<char>,
    now: Timestamp,
    facets: FacetsView,
    id: MemoryId,
) -> RowView {
    RowView {
        id,
        profile,
        content: cluster.representative_claim,
        event_time: now,
        record_time: now,
        idempotency_key: reflect_key(cluster.representative_claim, cluster.source_ids),
        source: Some("reflect"@),
        memory_type: cluster.memory_type,
        tags: seq!["reflect"@, "synthesised"@],
        external_refs: None,
        metadata: None,
        facets,
        superseded_by: None,
        confidence: Some(hundredths_bits(confidence_for(cluster.source_ids.len() as int))),
        reinforcement_count: 0,
        last_reinforced_at: None,
        invalidated_at: None,
    }
}

/// The derivations of the row that a cluster becomes: it was synthesised from
/// each source.
pub open spec fn consolidated_links(source_ids: Seq<MemoryId>) -> Seq<(MemoryId, Seq<char>)> {
    source_ids.map_values(|id: MemoryId| (id, "synthesised_from"@))
}

/// The row that a cluster becomes under the given identifier, and its
/// derivations.
pub fn emit_consolidated_as(
    cluster: &Cluster,
    profile: &str,
    now: Timestamp,
    source_facets: Facets,
    id: MemoryId,
) -> (r: (MemoryRow, Vec<(MemoryId, String)>))
    ensures
        r.0@ == consolidated_row(cluster@, profile@, now, source_facets@, id),
        db::link_views(r.1@) == consolidated_links(cluster.source_ids@),
        is_written_down(r.0, profile@, now, source_facets, cluster.source_ids@.len()),
        says_what_the_cluster_says(r.0, r.1@, *cluster),
{
    let ghost facets = source_facets;
    let mut tags: Vec<String> = Vec::new();
    tags.push("reflect".to_owned());
    tags.push("synthesised".to_owned());
    assert(text::texts(tags@) =~= seq!["reflect"@, "synthesised"@]);
    let row = MemoryRow {
        id,
        profile: profile.to_owned(),
        content: cluster.representative_claim.clone(),
        event_time: now,
        record_time: now,
        idempotency_key: reflect_idempotency_key(cluster),
        source: Some("reflect".to_owned()),
        memory_type: cluster.memory_type.clone(),
        tags,
        external_refs: None,
        metadata: None,
        facets: source_facets,
        superseded_by: None,
        confidence: Some(emission_confidence_bits(cluster.source_ids.len())),
        reinforcement_count: 0,
        last_reinforced_at: None,
        invalidated_at: None,
    };
    let mut links: Vec<(MemoryId, String)> = Vec::new();
    for i in 0..cluster.source_ids.len()
        invariant
            links@.len() == i,
            forall|j: int|
                0 <= j < i ==> (#[trigger] links@[j]).0 == cluster.source_ids@[j] && links@[j].1@
                    == "synthesised_from"@,
    {
        links.push((cluster.source_ids[i], "synthesised_from".to_owned()));
    }
    assert(db::link_views(links@) =~= consolidated_links(cluster.source_ids@));
    proof {
        lemma_cluster_is_written_down(*cluster, profile@, now, facets, row, links@);
    }
    (row, links)
}

/// The row that a cluster becomes under a new identifier, and its derivations.
pub fn emit_consolidated(
    cluster: &Cluster,
    profile: &str,
    now: Timestamp,
    source_facets: Facets,
) -> (r: (MemoryRow, Vec<(MemoryId, String)>))
    ensures
        r.0@ == consolidated_row(cluster@, profile@, now, source_facets@, r.0.id),
        db::link_views(r.1@) == consolidated_links(cluster.source_ids@),
        is_written_down(r.0, profile@, now, source_facets, cluster.source_ids@.len()),
        says_what_the_cluster_says(r.0, r.1@, *cluster),
{
    emit_consolidated_as(cluster, profile, now, source_facets, fresh_id())
}

// ---- Supersession -------------------------------------------------------------------

/// Whether the contradicted memory, as it stands in the store, still has to be
/// marked as superseded.
pub open spec fn still_to_supersede(old_row: Option<RowView>) -> bool {
    match old_row {
        Some(row) => row.superseded_by is None,
        None => true,
    }
}

/// Whether the contradicted memory still has to be marked as superseded.
pub fn must_supersede(old_row: &Option<MemoryRow>) -> (r: bool)
    ensures
        r == still_to_supersede(crate::db::opt_row(*old_row)),
        r <==> (*old_row is None || (*old_row)->0.superseded_by is None),
{
    match old_row {
        Some(row) => row.superseded_by.is_none(),
        None => true,
    }
}

/// The row that records that one belief took the place of another.
pub open spec fn supersession_row(
    cluster: ClusterView,
    contradiction: ContradictionView,
    new_id: MemoryId,
    profile: Seq<char>,
    now: Timestamp,
    facets: FacetsView,
    id: MemoryId,
) -> RowView {
    RowView {
        id,
        profile,
        content: "Josh shifted from '"@ + contradiction.existing_claim + "' to '"@
            + cluster.representative_claim + "' — "@ + contradiction.shift_description,
        event_time: now,
        record_time: now,
        idempotency_key: "reflect-meta-"@ + ids::id_text(contradiction.existing_id) + "-"@
            + ids::id_text(new_id),
        source: Some("reflect"@),
        memory_type: "mental_model"@,
        tags: seq!["reflect"@, "synthesised"@, "supersession"@],
        external_refs: None,
        metadata: None,
        facets,
        superseded_by: None,
        confidence: Some(hundredths_bits(confidence_for(cluster.source_ids.len() as int))),
        reinforcement_count: 0,
        last_reinforced_at: None,
        invalidated_at: None,
    }
}

/// The derivations of the row that records a supersession.
pub open spec fn supersession_links(existing_id: MemoryId, new_id: MemoryId) -> Seq<
    (MemoryId, Seq<char>),
> {
    seq![(existing_id, "supersession_of"@), (new_id, "supersession_to"@)]
}

/// Whether a row and its links record that one belief took the place of another: what
/// was believed, what is believed now and how that came, with a link to the memory that
/// was contradicted and one to the memory that took its place.
pub open spec fn tells_of_the_shift(
    row: MemoryRow,
    links: Seq<(MemoryId, String)>,
    cluster: Cluster,
    contradiction: Contradiction,
    new_id: MemoryId,
) -> bool {
    &&& row.content@ == "Josh shifted from '"@ + contradiction.existing_claim@ + "' to '"@
        + cluster.representative_claim@ + "' — "@ + contradiction.shift_description@
    &&& row.memory_type@ == "mental_model"@
    &&& row.idempotency_key@ == "reflect-meta-"@ + ids::id_text(contradiction.existing_id) + "-"@
        + ids::id_text(new_id)
    &&& row.tags@.len() == 3 && row.tags@[2]@ == "supersession"@
    &&& links.len() == 2
    &&& links[0].0 == contradiction.existing_id && links[0].1@ == "supersession_of"@
    &&& links[1].0 == new_id && links[1].1@ == "supersession_to"@
}

/// A supersession is recorded by a row that tells of it.
pub proof fn lemma_supersession_is_told(
    cluster: Cluster,
    contradiction: Contradiction,
    new_id: MemoryId,
    profile: Seq<char>,
    now: Timestamp,
    facets: Facets,
    row: MemoryRow,
    links: Seq<(MemoryId, String)>,
)
    requires
        row@ == supersession_row(
            cluster@,
            contradiction@,
            new_id,
            profile,
            now,
            facets@,
            row.id,
        ),
        db::link_views(links) == supersession_links(contradiction.existing_id, new_id),
    ensures
        is_written_down(row, profile, now, facets, cluster.source_ids@.len()),
        tells_of_the_shift(row, links, cluster, contradiction, new_id),
{
    let n = cluster.source_ids@.len();
    lemma_confidence_bits_are_nearest(n as int);
    text::lemma_same_texts(row.facets.domains@, facets.domains@);
    text::lemma_same_texts(row.facets.skills@, facets.skills@);
    text::lemma_same_texts(row.facets.projects@, facets.projects@);
    text::lemma_same_texts(row.facets.situations@, facets.situations@);
    let tags = text::texts(row.tags@);
    assert(tags.len() == row.tags@.len());
    assert(tags[0] == row.tags@[0]@);
    assert(tags[1] == row.tags@[1]@);
    assert(tags[2] == row.tags@[2]@);
    let views = db::link_views(links);
    assert(views.len() == links.len());
    assert(views[0] == (links[0].0, links[0].1@));
    assert(views[1] == (links[1].0, links[1].1@));
}

/// The row, under the given identifier, that records that the memory `new_id`,
/// which the cluster became, took the place of the one that it contradicts; and
/// the derivations of that row.
pub fn record_supersession_as(
    cluster: &Cluster,
    contradiction: &Contradiction,
    new_id: MemoryId,
    profile: &str,
    now: Timestamp,
    source_facets: Facets,
    id: MemoryId,
) -> (r: (MemoryRow, Vec<(MemoryId, String)>))
    ensures
        r.0@ == supersession_row(
            cluster@,
            contradiction@,
            new_id,
            profile@,
            now,
            source_facets@,
            id,
        ),
        db::link_views(r.1@) == supersession_links(contradiction.existing_id, new_id),
        is_written_down(r.0, profile@, now, source_facets, cluster.source_ids@.len()),
        tells_of_the_shift(r.0, r.1@, *cluster, *contradiction, new_id),
{
    let ghost facets = source_facets;
    let mut content = "Josh shifted from '".to_owned();
    content.append(contradiction.existing_claim.as_str());
    content.append("' to '");
    content.append(cluster.representative_claim.as_str());
    content.append("' — ");
    content.append(contradiction.shift_description.as_str());
    let mut tags: Vec<String> = Vec::new();
    tags.push("reflect".to_owned());
    tags.push("synthesised".to_owned());
    tags.push("supersession".to_owned());
    assert(text::texts(tags@) =~= seq!["reflect"@, "synthesised"@, "supersession"@]);
    let row = MemoryRow {
        id,
        profile: profile.to_owned(),
        content,
        event_time: now,
        record_time: now,
        idempotency_key: concat4(
            "reflect-meta-",
            format_id(contradiction.existing_id).as_str(),
            "-",
            format_id(new_id).as_str(),
        ),
        source: Some("reflect".to_owned()),
        memory_type: "mental_model".to_owned(),
        tags,
        external_refs: None,
        metadata: None,
        facets: source_facets,
        superseded_by: None,
        confidence: Some(emission_confidence_bits(cluster.source_ids.len())),
        reinforcement_count: 0,
        last_reinforced_at: None,
        invalidated_at: None,
    };
    let mut links: Vec<(MemoryId, String)> = Vec::new();
    links.push((contradiction.existing_id, "supersession_of".to_owned()));
    links.push((new_id, "supersession_to".to_owned()));
    assert(db::link_views(links@) =~= supersession_links(contradiction.existing_id, new_id));
    proof {
        lemma_supersession_is_told(
            *cluster,
            *contradiction,
            new_id,
            profile@,
            now,
            facets,
            row,
            links@,
        );
    }
    (row, links)
}

/// The row, under a new identifier, that records a supersession, and its
/// derivations.
pub fn record_supersession(
    cluster: &Cluster,
    contradiction: &Contradiction,
    new_id: MemoryId,
    profile: &str,
    now: Timestamp,
    source_facets: Facets,
) -> (r: (MemoryRow, Vec<(MemoryId, String)>))
    ensures
        r.0@ == supersession_row(
            cluster@,
            contradiction@,
            new_id,
            profile@,
            now,
            source_facets@,
            r.0.id,
        ),
        db::link_views(r.1@) == supersession_links(contradiction.existing_id, new_id),
        is_written_down(r.0, profile@, now, source_facets, cluster.source_ids@.len()),
        tells_of_the_shift(r.0, r.1@, *cluster, *contradiction, new_id),
{
    record_supersession_as(
        cluster,
        contradiction,
        new_id,
        profile,
        now,
        source_facets,
        fresh_id(),
    )
}

/// What came of a supersession.
#[derive(Debug, PartialEq, Eq)]
pub struct SupersessionResult {
    pub new_row: MemoryRow,
    pub superseded_id: MemoryId,
    pub meta_row_id: MemoryId,
    pub idempotent_replay: bool,
}

/// What came of a supersession. It is a replay only where the new row was there
/// before, the old row was superseded before, and the record was there before.
pub fn supersession_result(
    new_row: MemoryRow,
    superseded_id: MemoryId,
    meta_row_id: MemoryId,
    new_row_replayed: bool,
    already_superseded: bool,
    record_replayed: bool,
) -> (r: SupersessionResult)
    ensures
        r.new_row == new_row,
        r.superseded_id == superseded_id,
        r.meta_row_id == meta_row_id,
        r.idempotent_replay == (new_row_replayed && already_superseded && record_replayed),
{
    SupersessionResult {
        new_row,
        superseded_id,
        meta_row_id,
        idempotent_replay: new_row_replayed && already_superseded && record_replayed,
    }
}

// ---- Emission with supersession -----------------------------------------------------

/// Where the emission of a cluster that contradicts a memory stands.
#[derive(Debug, PartialEq, Eq)]
pub enum EmissionState {
    /// It waits for the cluster's row to be inserted.
    Emitting,
    /// The row stands, as a replay or not; it waits for the contradicted memory.
    Finding(MemoryRow, bool),
    /// It waits for the contradicted memory to be marked.
    Superseding(MemoryRow, bool),
    /// It waits for the record under the given identifier to be inserted. The
    /// second flag says whether the contradicted memory had been marked before.
    Recording(MemoryRow, bool, bool, MemoryId),
    /// It is done.
    Done,
}

/// What happened.
#[derive(Debug, PartialEq, Eq)]
pub enum EmissionEvent {
    /// The row was inserted, or, as a replay, one with its key was there already.
    Emitted(MemoryRow, bool),
    /// The contradicted memory was looked up.
    Found(Option<MemoryRow>),
    /// The contradicted memory was marked.
    Superseded,
    /// The record was inserted, or, as a replay, one with its key was there.
    Recorded(bool),
}

/// What to do next.
#[derive(Debug, PartialEq, Eq)]
pub enum EmissionAction {
    /// Insert the row of the cluster with its derivations.
    Emit(MemoryRow, Vec<(MemoryId, String)>),
    /// Look up the contradicted memory.
    Find(MemoryId),
    /// Mark the first memory as superseded by the second.
    Supersede(MemoryId, MemoryId),
    /// Embed the content of the record, and insert it with its derivations.
    Record(MemoryRow, Vec<(MemoryId, String)>),
    /// Return the result.
    Finish(SupersessionResult),
}

/// The emission of a cluster that contradicts a memory.
#[derive(Debug, PartialEq, Eq)]
pub struct Emission {
    cluster: Cluster,
    contradiction: Contradiction,
    profile: String,
    now: Timestamp,
    facets: Facets,
    state: EmissionState,
}

/// What an [`Emission`] stands for.
pub struct EmissionView {
    pub cluster: ClusterView,
    pub contradiction: ContradictionView,
    pub profile: Seq<char>,
    pub now: Timestamp,
    pub facets: FacetsView,
    pub state: EmissionState,
}

impl View for Emission {
    type V = EmissionView;

    closed spec fn view(&self) -> EmissionView {
        EmissionView {
            cluster: self.cluster@,
            contradiction: self.contradiction@,
            profile: self.profile@,
            now: self.now,
            facets: self.facets@,
            state: self.state,
        }
    }
}

/// Whether the emission goes on to record the supersession.
pub open spec fn goes_on_to_record(
    before: EmissionView,
    new_row: MemoryRow,
    replayed: bool,
    already_superseded: bool,
    after: EmissionView,
    action: Option<EmissionAction>,
) -> bool {
    action matches Some(EmissionAction::Record(row, links)) && {
        &&& row@ == supersession_row(
            before.cluster,
            before.contradiction,
            new_row.id,
            before.profile,
            before.now,
            before.facets,
            row.id,
        )
        &&& db::link_views(links@) == supersession_links(before.contradiction.existing_id, new_row.id)
        &&& after == (EmissionView {
            state: EmissionState::Recording(new_row, replayed, already_superseded, row.id),
            ..before
        })
    }
}

/// Whether the emission, on the event, goes on as it should: to the state `after`,
/// with the given action. Once the row of the cluster stands, the contradicted
/// memory is marked, unless it was marked before, and the supersession is
/// recorded. An event that does not belong to the state changes nothing and calls
/// for nothing.
pub open spec fn goes_on(
    before: EmissionView,
    event: EmissionEvent,
    after: EmissionView,
    action: Option<EmissionAction>,
) -> bool {
    let existing_id = before.contradiction.existing_id;
    match (before.state, event) {
        (EmissionState::Emitting, EmissionEvent::Emitted(row, replayed)) => {
            &&& after == (EmissionView { state: EmissionState::Finding(row, replayed), ..before })
            &&& action == Some(EmissionAction::Find(existing_id))
        },
        (EmissionState::Finding(row, replayed), EmissionEvent::Found(old_row)) => {
            if still_to_supersede(crate::db::opt_row(old_row)) {
                &&& after == (EmissionView {
                    state: EmissionState::Superseding(row, replayed),
                    ..before
                })
                &&& action == Some(EmissionAction::Supersede(existing_id, row.id))
            } else {
                goes_on_to_record(before, row, replayed, true, after, action)
            }
        },
        (EmissionState::Superseding(row, replayed), EmissionEvent::Superseded) => {
            goes_on_to_record(before, row, replayed, false, after, action)
        },
        (
            EmissionState::Recording(row, replayed, already_superseded, meta_row_id),
            EmissionEvent::Recorded(record_replayed),
        ) => {
            &&& after == (EmissionView { state: EmissionState::Done, ..before })
            &&& action == Some(
                EmissionAction::Finish(
                    SupersessionResult {
                        new_row: row,
                        superseded_id: existing_id,
                        meta_row_id,
                        idempotent_replay: replayed && already_superseded && record_replayed,
                    },
                ),
            )
        },
        _ => after == before && action is None,
    }
}

impl Emission {
    /// Begins to emit a cluster that contradicts a memory, and says what to do
    /// first.
    pub fn begin(
        cluster: Cluster,
        contradiction: Contradiction,
        profile: String,
        now: Timestamp,
        facets: Facets,
    ) -> (r: (Emission, EmissionAction))
        ensures
            r.0@ == (EmissionView {
                cluster: cluster@,
                contradiction: contradiction@,
                profile: profile@,
                now,
                facets: facets@,
                state: EmissionState::Emitting,
            }),
            r.1 matches EmissionAction::Emit(row, links) && row@ == consolidated_row(
                cluster@,
                profile@,
                now,
                facets@,
                row.id,
            ) && db::link_views(links@) == consolidated_links(cluster.source_ids@),
    {
        let (row, links) = emit_consolidated(&cluster, profile.as_str(), now, facets.copy());
        (
            Emission {
                cluster,
                contradiction,
                profile,
                now,
                facets,
                state: EmissionState::Emitting,
            },
            EmissionAction::Emit(row, links),
        )
    }

    fn record(self, new_row: MemoryRow, replayed: bool, already_superseded: bool) -> (r: (
        Emission,
        Option<EmissionAction>,
    ))
        ensures
            goes_on_to_record(self@, new_row, replayed, already_superseded, r.0@, r.1),
    {
        let (row, links) = record_supersession(
            &self.cluster,
            &self.contradiction,
            new_row.id,
            self.profile.as_str(),
            self.now,
            self.facets.copy(),
        );
        let state = EmissionState::Recording(new_row, replayed, already_superseded, row.id);
        (Emission { state, ..self }, Some(EmissionAction::Record(row, links)))
    }

    /// What to do next, now that the given event happened; `None` where the event
    /// does not belong to where the emission stands.
    pub fn step(self, event: EmissionEvent) -> (r: (Emission, Option<EmissionAction>))
        ensures
            goes_on(self@, event, r.0@, r.1),
    {
        let existing_id = self.contradiction.existing_id;
        let Emission { cluster, contradiction, profile, now, facets, state } = self;
        let resting = Emission {
            cluster,
            contradiction,
            profile,
            now,
            facets,
            state: EmissionState::Done,
        };
        match (state, event) {
            (EmissionState::Emitting, EmissionEvent::Emitted(row, replayed)) => {
                let state = EmissionState::Finding(row, replayed);
                (Emission { state, ..resting }, Some(EmissionAction::Find(existing_id)))
            },
            (EmissionState::Finding(row, replayed), EmissionEvent::Found(old_row)) => {
                if must_supersede(&old_row) {
                    let new_id = row.id;
                    let state = EmissionState::Superseding(row, replayed);
                    (
                        Emission { state, ..resting },
                        Some(EmissionAction::Supersede(existing_id, new_id)),
                    )
                } else {
                    resting.record(row, replayed, true)
                }
            },
            (EmissionState::Superseding(row, replayed), EmissionEvent::Superseded) => {
                resting.record(row, replayed, false)
            },
            (
                EmissionState::Recording(row, replayed, already_superseded, meta_row_id),
                EmissionEvent::Recorded(record_replayed),
            ) => {
                let result = supersession_result(
                    row,
                    existing_id,
                    meta_row_id,
                    replayed,
                    already_superseded,
                    record_replayed,
                );
                (resting, Some(EmissionAction::Finish(result)))
            },
            (state, _) => (Emission { state, ..resting }, None),
        }
    }
}

/// How a cluster is emitted.
#[derive(Debug, PartialEq, Eq)]
pub enum EmissionPlan {
    /// Insert the row with its derivations.
    Plain(MemoryRow, Vec<(MemoryId, String)>),
    /// It takes the place of a memory: begin with the given action.
    Superseding(Emission, EmissionAction),
}

/// Whether the row and its derivations are those that a cluster becomes.
pub open spec fn is_emitted(
    row: MemoryRow,
    links: Seq<(MemoryId, String)>,
    cluster: ClusterView,
    profile: Seq<char>,
    now: Timestamp,
    facets: FacetsView,
) -> bool {
    &&& row@ == consolidated_row(cluster, profile, now, facets, row.id)
    &&& db::link_views(links) == consolidated_links(cluster.source_ids)
}

/// Whether a cluster is emitted as it should: where it contradicts a memory, it
/// takes the place of that memory, and otherwise it is inserted.
pub open spec fn is_plan(
    plan: EmissionPlan,
    cluster: ClusterView,
    contradiction: Option<ContradictionView>,
    profile: Seq<char>,
    now: Timestamp,
    facets: FacetsView,
) -> bool {
    match plan {
        EmissionPlan::Plain(row, links) => {
            &&& contradiction is None
            &&& is_emitted(row, links@, cluster, profile, now, facets)
        },
        EmissionPlan::Superseding(emission, action) => {
            &&& contradiction is Some
            &&& emission@ == (EmissionView {
                cluster,
                contradiction: contradiction->0,
                profile,
                now,
                facets,
                state: EmissionState::Emitting,
            })
            &&& action matches EmissionAction::Emit(row, links) && is_emitted(
                row,
                links@,
                cluster,
                profile,
                now,
                facets,
            )
        },
    }
}

/// What a contradiction, if any, stands for.
pub open spec fn opt_contradiction(c: Option<Contradiction>) -> Option<ContradictionView> {
    match c {
        Some(c) => Some(c@),
        None => None,
    }
}

/// How a cluster is emitted: where it contradicts a memory, it takes the place of
/// that memory, and otherwise it is inserted.
pub fn plan_emission(
    cluster: &Cluster,
    contradiction: Option<Contradiction>,
    profile: &str,
    now: Timestamp,
    facets: Facets,
) -> (r: EmissionPlan)
    ensures
        is_plan(r, cluster@, opt_contradiction(contradiction), profile@, now, facets@),
{
    match contradiction {
        None => {
            let (row, links) = emit_consolidated(cluster, profile, now, facets);
            EmissionPlan::Plain(row, links)
        },
        Some(c) => {
            let (emission, action) = Emission::begin(
                cluster.copy(),
                c,
                profile.to_owned(),
                now,
                facets,
            );
            EmissionPlan::Superseding(emission, action)
        },
    }
}

/// A memory that was superseded before is not marked again: the emission goes on
/// to the record at once.
pub proof fn lemma_superseded_is_not_marked_again(
    before: EmissionView,
    new_row: MemoryRow,
    replayed: bool,
    old_row: MemoryRow,
    after: EmissionView,
    action: Option<EmissionAction>,
)
    requires
        before.state == EmissionState::Finding(new_row, replayed),
        old_row.superseded_by is Some,
        goes_on(before, EmissionEvent::Found(Some(old_row)), after, action),
    ensures
        action matches Some(EmissionAction::Record(_, _)),
{
}

/// The record of a supersession links the memory that was contradicted and the
/// memory that took its place, whatever was there before.
pub proof fn lemma_supersession_is_recorded(
    before: EmissionView,
    new_row: MemoryRow,
    replayed: bool,
    already_superseded: bool,
    after: EmissionView,
    action: Option<EmissionAction>,
)
    requires
        goes_on_to_record(before, new_row, replayed, already_superseded, after, action),
    ensures
        action matches Some(EmissionAction::Record(_, links)) && {
            let l = db::link_views(links@);
            &&& l.len() == 2
            &&& l[0].0 == before.contradiction.existing_id
            &&& l[1].0 == new_row.id
        },
{
}

/// The contradicted memory is looked up, and marked as superseded by the row that the
/// cluster became, and by no other, where it is not superseded yet. Every emission that
/// finishes has recorded the supersession; it is a replay where nothing was written.
pub proof fn lemma_emission_goes_in_order(
    cluster: Cluster,
    contradiction: Contradiction,
    facets: Facets,
    new_row: MemoryRow,
    replayed: bool,
    before: EmissionView,
    event: EmissionEvent,
    after: EmissionView,
    action: Option<EmissionAction>,
)
    requires
        before.cluster == cluster@,
        before.contradiction == contradiction@,
        before.facets == facets@,
        goes_on(before, event, after, action),
    ensures
        after.cluster == before.cluster && after.contradiction == before.contradiction
            && after.profile == before.profile && after.now == before.now && after.facets
            == before.facets,
        before.state == EmissionState::Emitting && event == EmissionEvent::Emitted(
            new_row,
            replayed,
        ) ==> action == Some(EmissionAction::Find(contradiction.existing_id)) && after.state
            == EmissionState::Finding(new_row, replayed),
        before.state == EmissionState::Finding(new_row, replayed) ==> match event {
            EmissionEvent::Found(None) => action == Some(
                EmissionAction::Supersede(contradiction.existing_id, new_row.id),
            ) && after.state == EmissionState::Superseding(new_row, replayed),
            EmissionEvent::Found(Some(old_row)) => if old_row.superseded_by is None {
                action == Some(EmissionAction::Supersede(contradiction.existing_id, new_row.id))
                    && after.state == EmissionState::Superseding(new_row, replayed)
            } else {
                (action matches Some(EmissionAction::Record(row, _)) && after.state
                    == EmissionState::Recording(new_row, replayed, true, row.id))
            },
            _ => action is None && after.state == before.state,
        },
        before.state == EmissionState::Superseding(new_row, replayed) && event
            == EmissionEvent::Superseded ==> (action matches Some(EmissionAction::Record(row, links))
            && is_written_down(row, before.profile, before.now, facets, cluster.source_ids@.len())
            && tells_of_the_shift(row, links@, cluster, contradiction, new_row.id) && after.state
            == EmissionState::Recording(new_row, replayed, false, row.id)),
        action matches Some(EmissionAction::Record(row, links)) ==> before.state is Superseding
            || before.state is Finding,
        action matches Some(EmissionAction::Finish(result)) ==> (before.state matches
            EmissionState::Recording(row, r, marked, id) && event matches EmissionEvent::Recorded(
            again,
        ) && result.new_row == row && result.superseded_id == contradiction.existing_id
            && result.meta_row_id == id && result.idempotent_replay == (r && marked && again)),
{
    if before.state == EmissionState::Superseding(new_row, replayed) && event
        == EmissionEvent::Superseded {
        match action {
            Some(EmissionAction::Record(row, links)) => {
                lemma_supersession_is_told(
                    cluster,
                    contradiction,
                    new_row.id,
                    before.profile,
                    before.now,
                    facets,
                    row,
                    links@,
                );
            },
            _ => {},
        }
    }
}

/// A cluster takes the place of a memory where, and only where, it contradicts one.
pub proof fn lemma_contradiction_supersedes(
    plan: EmissionPlan,
    cluster: Cluster,
    contradiction: Option<Contradiction>,
    profile: Seq<char>,
    now: Timestamp,
    facets: Facets,
)
    requires
        is_plan(plan, cluster@, opt_contradiction(contradiction), profile, now, facets@),
    ensures
        plan is Superseding <==> contradiction is Some,
        plan matches EmissionPlan::Plain(row, links) ==> says_what_the_cluster_says(
            row,
            links@,
            cluster,
        ) && is_written_down(row, profile, now, facets, cluster.source_ids@.len()),
        plan matches EmissionPlan::Superseding(emission, action) ==> emission@.contradiction
            == contradiction->0@ && (action matches EmissionAction::Emit(row, links)
            && says_what_the_cluster_says(row, links@, cluster)),
{
    match plan {
        EmissionPlan::Plain(row, links) => {
            lemma_cluster_is_written_down(cluster, profile, now, facets, row, links@);
        },
        EmissionPlan::Superseding(emission, EmissionAction::Emit(row, links)) => {
            lemma_cluster_is_written_down(cluster, profile, now, facets, row, links@);
        },
        _ => {},
    }
}

/// The key of a consolidated memory shows the first sixteen bytes of the digest, two
/// digits each, behind its prefix.
pub proof fn lemma_key_shows_sixteen_bytes(digest: Seq<u8>, i: int)
    requires
        digest.len() >= 16,
        0 <= i < 16,
    ensures
        reflect_key_of_digest(digest).len() == "reflect-"@.len() + 32,
        text::has_prefix(reflect_key_of_digest(digest), "reflect-"@),
        digest[i] as int == 16 * text::digit_value(
            reflect_key_of_digest(digest)["reflect-"@.len() + 2 * i],
        ) + text::digit_value(reflect_key_of_digest(digest)["reflect-"@.len() + 2 * i + 1]),
{
    let bytes = digest.take(16);
    text::lemma_hex_stands_for_the_bytes(bytes);
    text::lemma_ends_of_texts("reflect-"@, "reflect-"@, text::hex(bytes));
    assert(bytes[i] == digest[i]);
}

/// The same claim from other sources has other key material.
pub proof fn lemma_material_tells_sources_apart(
    claim: Seq<char>,
    a: Seq<MemoryId>,
    b: Seq<MemoryId>,
)
    requires
        reflect_material(claim, a) == reflect_material(claim, b),
    ensures
        text::joined(id_texts(ids::in_order(a)), ","@) == text::joined(
            id_texts(ids::in_order(b)),
            ","@,
        ),
{
    let head = "reflect:"@ + claim + ":"@;
    let x = text::joined(id_texts(ids::in_order(a)), ","@);
    let y = text::joined(id_texts(ids::in_order(b)), ","@);
    assert(reflect_material(claim, a).skip(head.len() as int) =~= x);
    assert(reflect_material(claim, b).skip(head.len() as int) =~= y);
}

} // verus!
