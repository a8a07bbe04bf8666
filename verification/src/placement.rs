//! Content-free traces of image placements: occurrences in source order,
//! with the frequency of each resource alias.
use vstd::prelude::*;
use crate::strset::{StringSet, sorted_unique, string_views};
use crate::counts::{CountMap, bumped};
use crate::decode::opt_string_view;
use crate::text::{owned, str_eq, decimal, decimal_into, decimal_string, join2, chars_of, string_from_chars};
use crate::text_events::lemma_sorted_no_duplicates;
use crate::resource_audit::lemma_filter_card;
use crate::digest::{sha256, sha256_digest};
use crate::media::{hex_lower, hex_spec};
use crate::error::{AmazonKfxError, KfxErrorView, ParseMode};
use crate::inspect::{parse_native, native_spec};
use crate::native::{has_cont_prefix, fragment_views, NativeModelView};
use crate::raw_images::{collect_raw_image_references, raw_ref_views, raw_refs_spec};
use crate::text_events::{fragment_positions, positions_of_type};

verus! {

/// One image placement.
#[derive(Debug)]
pub struct KfxPlacementOccurrence {
    pub source_order: usize,
    pub resource: Option<String>,
    pub alternate_symbol_resources_audit_only: Vec<String>,
    /// `$155` target token, not the cumulative Kindle position in the oracle.
    pub source_position_target_id: Option<u32>,
    pub identity_status: String,
}

pub struct OccurrenceView {
    pub source_order: usize,
    pub resource: Option<Seq<char>>,
    pub alternates: Seq<Seq<char>>,
    pub target: Option<u32>,
    pub identity_status: Seq<char>,
}

impl View for KfxPlacementOccurrence {
    type V = OccurrenceView;

    open spec fn view(&self) -> OccurrenceView {
        OccurrenceView {
            source_order: self.source_order,
            resource: opt_string_view(self.resource),
            alternates: string_views(self.alternate_symbol_resources_audit_only@),
            target: self.source_position_target_id,
            identity_status: self.identity_status@,
        }
    }
}

/// How often one resource alias is placed.
#[derive(Debug)]
pub struct KfxPlacementFrequency {
    pub resource: String,
    pub count: usize,
}

/// How many raw references fell in one resolution category.
#[derive(Debug)]
pub struct KfxPlacementResolutionCount {
    pub category: String,
    pub count: usize,
}

/// The placements seen at one stage of decoding.
#[derive(Debug)]
pub struct KfxPlacementStage {
    pub occurrence_count: usize,
    pub identity_verified_occurrence_count: usize,
    pub unresolved_identity_occurrence_count: usize,
    pub resource_frequencies: Vec<KfxPlacementFrequency>,
    pub occurrences: Vec<KfxPlacementOccurrence>,
}

/// How many times each name occurs (counting up, saturating).
pub open spec fn tally(names: Seq<Seq<char>>) -> Map<Seq<char>, usize>
    decreases names.len(),
{
    if names.len() == 0 {
        Map::empty()
    } else {
        bumped(tally(names.drop_last()), names.last())
    }
}

pub proof fn lemma_tally_domain(names: Seq<Seq<char>>)
    ensures
        tally(names).dom() == names.to_set(),
    decreases names.len(),
{
    if names.len() > 0 {
        lemma_tally_domain(names.drop_last());
        assert(names.to_set() =~= names.drop_last().to_set().insert(names.last())) by {
            assert forall|x: Seq<char>| names.to_set().contains(x) implies names.drop_last().to_set().insert(names.last()).contains(x) by {
                let k = choose|k: int| 0 <= k < names.len() && names[k] == x;
                if k < names.len() - 1 {
                    assert(names.drop_last()[k] == x);
                }
            }
            assert forall|x: Seq<char>| names.drop_last().to_set().insert(names.last()).contains(x) implies names.to_set().contains(x) by {
                if x != names.last() {
                    let k = choose|k: int| 0 <= k < names.drop_last().len() && names.drop_last()[k] == x;
                    assert(names[k] == x);
                } else {
                    assert(names[names.len() - 1] == x);
                }
            }
        }
    } else {
        assert(names.to_set() =~= Set::<Seq<char>>::empty());
    }
}

/// The entries of a sorted tally: names in ascending order, each with its
/// count in `names`.
pub open spec fn sorted_tally(keys: Seq<Seq<char>>, counts: Seq<usize>, names: Seq<Seq<char>>) -> bool {
    &&& keys.len() == counts.len()
    &&& sorted_unique(keys)
    &&& keys.to_set() == names.to_set()
    &&& forall|k: int| 0 <= k < keys.len() ==> #[trigger] counts[k] == tally(names)[keys[k]]
}

/// Counts `names` and lists each distinct name with its count, in
/// ascending order of name.
pub fn tally_sorted(names: &Vec<String>) -> (r: (Vec<String>, Vec<usize>))
    ensures
        sorted_tally(string_views(r.0@), r.1@, string_views(names@)),
{
    let ghost nv = string_views(names@);
    let mut set = StringSet::new();
    let mut counts = CountMap::new();
    let mut i: usize = 0;
    while i < names.len()
        invariant
            0 <= i <= names@.len(),
            nv == string_views(names@),
            nv.len() == names@.len(),
            set.wf(),
            counts.wf(),
            set.set() == nv.take(i as int).to_set(),
            counts.counts() == tally(nv.take(i as int)),
        decreases names@.len() - i,
    {
        let ghost t = nv.take(i + 1);
        proof {
            assert(t.drop_last() =~= nv.take(i as int));
            assert(t.last() == names@[i as int]@);
            lemma_tally_domain(t);
            lemma_tally_domain(nv.take(i as int));
        }
        set.insert_str(names[i].as_str());
        counts.increment(names[i].as_str());
        proof {
            assert(set.set() =~= t.to_set());
        }
        i = i + 1;
    }
    assert(nv.take(i as int) =~= nv);
    proof {
        lemma_tally_domain(nv);
    }
    let keys = set.to_vec();
    let mut out: Vec<usize> = Vec::new();
    let mut k: usize = 0;
    while k < keys.len()
        invariant
            0 <= k <= keys@.len(),
            counts.wf(),
            counts.counts() == tally(nv),
            tally(nv).dom() == nv.to_set(),
            string_views(keys@).to_set() == nv.to_set(),
            out@.len() == k,
            forall|j: int| 0 <= j < k ==> #[trigger] out@[j] == tally(nv)[string_views(keys@)[j]],
        decreases keys@.len() - k,
    {
        assert(string_views(keys@)[k as int] == keys@[k as int]@);
        assert(string_views(keys@).to_set().contains(keys@[k as int]@)) by {
            assert(string_views(keys@)[k as int] == keys@[k as int]@);
        }
        out.push(counts.get(keys[k].as_str()));
        k = k + 1;
    }
    (keys, out)
}

pub open spec fn occurrence_views(s: Seq<KfxPlacementOccurrence>) -> Seq<OccurrenceView> {
    s.map_values(|o: KfxPlacementOccurrence| o@)
}

/// An occurrence renumbered to position `k`.
pub open spec fn numbered(o: OccurrenceView, k: usize) -> OccurrenceView {
    OccurrenceView { source_order: k, ..o }
}

/// The resources that the occurrences name, in order.
pub open spec fn placed_resources(s: Seq<OccurrenceView>) -> Seq<Seq<char>>
    decreases s.len(),
{
    if s.len() == 0 {
        Seq::empty()
    } else {
        let prev = placed_resources(s.drop_last());
        match s.last().resource {
            Some(r) => prev.push(r),
            None => prev,
        }
    }
}

/// The number of occurrences whose identity is an exact image identity.
pub open spec fn verified_count(s: Seq<OccurrenceView>) -> nat
    decreases s.len(),
{
    if s.len() == 0 {
        0
    } else {
        verified_count(s.drop_last()) + if s.last().identity_status == "exact_image_identity"@ { 1nat } else { 0nat }
    }
}

proof fn lemma_verified_bound(s: Seq<OccurrenceView>)
    ensures
        verified_count(s) <= s.len(),
    decreases s.len(),
{
    if s.len() > 0 {
        lemma_verified_bound(s.drop_last());
    }
}

pub open spec fn frequency_keys(f: Seq<KfxPlacementFrequency>) -> Seq<Seq<char>> {
    f.map_values(|x: KfxPlacementFrequency| x.resource@)
}

pub open spec fn frequency_counts(f: Seq<KfxPlacementFrequency>) -> Seq<usize> {
    f.map_values(|x: KfxPlacementFrequency| x.count)
}

/// The stage made of `occurrences`: each numbered by its position, the
/// exact identities counted, and the frequency of each placed resource.
pub open spec fn stage_ok(r: KfxPlacementStage, occurrences: Seq<OccurrenceView>) -> bool {
    &&& r.occurrence_count == occurrences.len()
    &&& r.identity_verified_occurrence_count == verified_count(occurrences)
    &&& r.unresolved_identity_occurrence_count == occurrences.len() - verified_count(occurrences)
    &&& occurrence_views(r.occurrences@).len() == occurrences.len()
    &&& forall|k: int| 0 <= k < occurrences.len() ==> #[trigger] occurrence_views(r.occurrences@)[k] == numbered(occurrences[k], k as usize)
    &&& sorted_tally(frequency_keys(r.resource_frequencies@), frequency_counts(r.resource_frequencies@), placed_resources(occurrences))
}

fn zip_frequencies(keys: Vec<String>, counts: Vec<usize>) -> (r: Vec<KfxPlacementFrequency>)
    requires
        keys@.len() == counts@.len(),
    ensures
        frequency_keys(r@) == string_views(keys@),
        frequency_counts(r@) == counts@,
{
    let mut out: Vec<KfxPlacementFrequency> = Vec::new();
    let mut k: usize = 0;
    while k < keys.len()
        invariant
            0 <= k <= keys@.len(),
            keys@.len() == counts@.len(),
            frequency_keys(out@) == string_views(keys@).take(k as int),
            frequency_counts(out@) == counts@.take(k as int),
        decreases keys@.len() - k,
    {
        let ghost before = out@;
        out.push(KfxPlacementFrequency { resource: owned(keys[k].as_str()), count: counts[k] });
        assert(frequency_keys(out@) =~= string_views(keys@).take(k + 1)) by {
            assert(frequency_keys(out@) =~= frequency_keys(before).push(keys@[k as int]@));
        }
        assert(frequency_counts(out@) =~= counts@.take(k + 1)) by {
            assert(frequency_counts(out@) =~= frequency_counts(before).push(counts@[k as int]));
        }
        k = k + 1;
    }
    assert(string_views(keys@).take(k as int) =~= string_views(keys@));
    assert(counts@.take(k as int) =~= counts@);
    out
}

/// Numbers the occurrences by position and counts them.
pub fn finalize_placement_stage(occurrences: Vec<KfxPlacementOccurrence>) -> (r: KfxPlacementStage)
    ensures
        stage_ok(r, occurrence_views(occurrences@)),
{
    let ghost ov = occurrence_views(occurrences@);
    let n = occurrences.len();
    let mut rest = occurrences;
    let mut reversed: Vec<KfxPlacementOccurrence> = Vec::new();
    while rest.len() > 0
        invariant
            rest@.len() + reversed@.len() == n,
            ov.len() == n,
            occurrence_views(rest@) == ov.take(rest@.len() as int),
            forall|k: int| 0 <= k < reversed@.len() ==> #[trigger] reversed@[k]@ == ov[n - 1 - k],
        decreases rest@.len(),
    {
        let ghost before = rest@;
        let x = rest.pop().unwrap();
        assert(x@ == ov[rest@.len() as int]) by {
            assert(occurrence_views(before)[rest@.len() as int] == x@);
        }
        assert(occurrence_views(rest@) =~= ov.take(rest@.len() as int)) by {
            assert(occurrence_views(rest@) =~= occurrence_views(before).take(rest@.len() as int));
        }
        reversed.push(x);
    }
    let mut out: Vec<KfxPlacementOccurrence> = Vec::new();
    let mut resources: Vec<String> = Vec::new();
    let mut verified: usize = 0;
    while reversed.len() > 0
        invariant
            out@.len() + reversed@.len() == n,
            ov.len() == n,
            forall|k: int| 0 <= k < reversed@.len() ==> #[trigger] reversed@[k]@ == ov[n - 1 - k],
            forall|k: int| 0 <= k < out@.len() ==> #[trigger] out@[k]@ == numbered(ov[k], k as usize),
            string_views(resources@) == placed_resources(ov.take(out@.len() as int)),
            verified == verified_count(ov.take(out@.len() as int)),
            verified <= out@.len(),
        decreases reversed@.len(),
    {
        let i = out.len();
        let ghost t = ov.take(i + 1);
        proof {
            assert(t.drop_last() =~= ov.take(i as int));
            assert(t.last() == ov[i as int]);
        }
        let mut x = reversed.pop().unwrap();
        assert(x@ == ov[i as int]);
        x.source_order = i;
        if str_eq(x.identity_status.as_str(), "exact_image_identity") {
            verified = verified + 1;
        }
        match &x.resource {
            Some(res) => {
                let ghost before = resources@;
                resources.push(owned(res.as_str()));
                assert(string_views(resources@) =~= string_views(before).push(res@));
            },
            None => {},
        }
        out.push(x);
    }
    assert(ov.take(n as int) =~= ov);
    let (keys, counts) = tally_sorted(&resources);
    proof {
        lemma_verified_bound(ov);
    }
    let frequencies = zip_frequencies(keys, counts);
    assert(occurrence_views(out@).len() == ov.len());
    assert forall|k: int| 0 <= k < ov.len() implies #[trigger] occurrence_views(out@)[k] == numbered(ov[k], k as usize) by {
        assert(occurrence_views(out@)[k] == out@[k]@);
    }
    KfxPlacementStage {
        occurrence_count: n,
        identity_verified_occurrence_count: verified,
        unresolved_identity_occurrence_count: n - verified,
        resource_frequencies: frequencies,
        occurrences: out,
    }
}

pub open spec fn resolution_keys(f: Seq<KfxPlacementResolutionCount>) -> Seq<Seq<char>> {
    f.map_values(|x: KfxPlacementResolutionCount| x.category@)
}

pub open spec fn resolution_counts(f: Seq<KfxPlacementResolutionCount>) -> Seq<usize> {
    f.map_values(|x: KfxPlacementResolutionCount| x.count)
}

/// How many raw references fell in each resolution category, in ascending
/// order of category.
pub fn placement_resolution_counts(categories: &Vec<String>) -> (r: Vec<KfxPlacementResolutionCount>)
    ensures
        sorted_tally(resolution_keys(r@), resolution_counts(r@), string_views(categories@)),
{
    let (keys, counts) = tally_sorted(categories);
    let mut out: Vec<KfxPlacementResolutionCount> = Vec::new();
    let mut k: usize = 0;
    while k < keys.len()
        invariant
            0 <= k <= keys@.len(),
            keys@.len() == counts@.len(),
            resolution_keys(out@) == string_views(keys@).take(k as int),
            resolution_counts(out@) == counts@.take(k as int),
        decreases keys@.len() - k,
    {
        let ghost before = out@;
        out.push(KfxPlacementResolutionCount { category: owned(keys[k].as_str()), count: counts[k] });
        assert(resolution_keys(out@) =~= string_views(keys@).take(k + 1)) by {
            assert(resolution_keys(out@) =~= resolution_keys(before).push(keys@[k as int]@));
        }
        assert(resolution_counts(out@) =~= counts@.take(k + 1)) by {
            assert(resolution_counts(out@) =~= resolution_counts(before).push(counts@[k as int]));
        }
        k = k + 1;
    }
    assert(string_views(keys@).take(k as int) =~= string_views(keys@));
    assert(counts@.take(k as int) =~= counts@);
    out
}

/// Every occurrence of a stage is either identity-verified or unresolved,
/// and each keeps its place in source order.
pub proof fn lemma_stage_partition(r: KfxPlacementStage, occurrences: Seq<OccurrenceView>)
    requires
        stage_ok(r, occurrences),
    ensures
        r.identity_verified_occurrence_count + r.unresolved_identity_occurrence_count == r.occurrence_count,
        forall|k: int| 0 <= k < r.occurrences@.len() ==> (#[trigger] r.occurrences@[k]).source_order == k,
{
    lemma_verified_bound(occurrences);
    assert forall|k: int| 0 <= k < r.occurrences@.len() implies (#[trigger] r.occurrences@[k]).source_order == k by {
        assert(occurrence_views(r.occurrences@)[k] == r.occurrences@[k]@);
    }
}

/// The value of the first entry keyed `k`.
pub open spec fn first_value(s: Seq<(String, String)>, k: Seq<char>) -> Option<Seq<char>>
    decreases s.len(),
{
    if s.len() == 0 {
        None
    } else if s[0].0@ == k {
        Some(s[0].1@)
    } else {
        first_value(s.subrange(1, s.len() as int), k)
    }
}

/// The value of the first entry keyed `key` (the entries of a map keyed by
/// name).
pub fn lookup(entries: &Vec<(String, String)>, key: &str) -> (r: Option<String>)
    ensures
        opt_string_view(r) == first_value(entries@, key@),
{
    let mut i: usize = 0;
    assert(entries@.subrange(0, entries@.len() as int) =~= entries@);
    while i < entries.len()
        invariant
            0 <= i <= entries@.len(),
            first_value(entries@, key@) == first_value(entries@.subrange(i as int, entries@.len() as int), key@),
        decreases entries@.len() - i,
    {
        let ghost rest = entries@.subrange(i as int, entries@.len() as int);
        assert(rest.subrange(1, rest.len() as int) =~= entries@.subrange(i + 1, entries@.len() as int));
        assert(rest[0] == entries@[i as int]);
        if str_eq(entries[i].0.as_str(), key) {
            return Some(owned(entries[i].1.as_str()));
        }
        i = i + 1;
    }
    None
}

/// An image reference read from the source content.
#[derive(Debug)]
pub struct RawImageReference {
    pub resource_name: Option<String>,
    pub alternate_names_audit_only: Vec<String>,
    pub position_target_id: Option<u32>,
    pub resolution_category: String,
}

/// An image placement captured during decoding: its resource id.
#[derive(Clone, Copy, Debug)]
pub struct CapturedImagePlacement {
    pub resource: u32,
    pub position_target_id: Option<u32>,
}

pub open spec fn opt_lookup(entries: Seq<(String, String)>, key: Option<Seq<char>>) -> Option<Seq<char>> {
    match key {
        Some(k) => first_value(entries, k),
        None => None,
    }
}

/// The aliases of the names that have one, in order.
pub open spec fn aliased(names: Seq<Seq<char>>, aliases: Seq<(String, String)>) -> Seq<Seq<char>>
    decreases names.len(),
{
    if names.len() == 0 {
        Seq::empty()
    } else {
        let prev = aliased(names.drop_last(), aliases);
        match first_value(aliases, names.last()) {
            Some(a) => prev.push(a),
            None => prev,
        }
    }
}

/// The occurrence of a raw reference: its alias, its alternates' aliases,
/// and the status of its identity (`identities` maps names to statuses).
pub open spec fn raw_occurrence(r: RawImageReference, aliases: Seq<(String, String)>, identities: Seq<(String, String)>) -> OccurrenceView {
    OccurrenceView {
        source_order: 0,
        resource: opt_lookup(aliases, opt_string_view(r.resource_name)),
        alternates: aliased(string_views(r.alternate_names_audit_only@), aliases),
        target: r.position_target_id,
        identity_status: match opt_lookup(identities, opt_string_view(r.resource_name)) {
            Some(status) => status,
            None => "unresolved_external_resource_reference"@,
        },
    }
}

fn opt_lookup_of(entries: &Vec<(String, String)>, key: &Option<String>) -> (r: Option<String>)
    ensures
        opt_string_view(r) == opt_lookup(entries@, opt_string_view(*key)),
{
    match key {
        Some(k) => lookup(entries, k.as_str()),
        None => None,
    }
}

fn raw_occurrence_of(
    reference: &RawImageReference,
    aliases: &Vec<(String, String)>,
    identities: &Vec<(String, String)>,
) -> (r: KfxPlacementOccurrence)
    ensures
        r@ == raw_occurrence(*reference, aliases@, identities@),
{
    let names = &reference.alternate_names_audit_only;
    let mut alternates: Vec<String> = Vec::new();
    let mut i: usize = 0;
    while i < names.len()
        invariant
            0 <= i <= names@.len(),
            string_views(alternates@) == aliased(string_views(names@).take(i as int), aliases@),
        decreases names@.len() - i,
    {
        proof {
            assert(string_views(names@).take(i + 1).drop_last() =~= string_views(names@).take(i as int));
            assert(string_views(names@).take(i + 1).last() == names@[i as int]@);
        }
        match lookup(aliases, names[i].as_str()) {
            Some(a) => {
                let ghost before = alternates@;
                alternates.push(a);
                assert(string_views(alternates@) =~= string_views(before).push(alternates@.last()@));
            },
            None => {},
        }
        i = i + 1;
    }
    assert(string_views(names@).take(i as int) =~= string_views(names@));
    let status = match opt_lookup_of(identities, &reference.resource_name) {
        Some(st) => st,
        None => owned("unresolved_external_resource_reference"),
    };
    KfxPlacementOccurrence {
        source_order: 0,
        resource: opt_lookup_of(aliases, &reference.resource_name),
        alternate_symbol_resources_audit_only: alternates,
        source_position_target_id: reference.position_target_id,
        identity_status: status,
    }
}

/// The placement stage of the raw references read from the source.
pub fn placement_stage_from_raw(
    raw: &Vec<RawImageReference>,
    aliases: &Vec<(String, String)>,
    identities: &Vec<(String, String)>,
) -> (r: KfxPlacementStage)
    ensures
        stage_ok(r, raw@.map_values(|x: RawImageReference| raw_occurrence(x, aliases@, identities@))),
{
    let ghost target = raw@.map_values(|x: RawImageReference| raw_occurrence(x, aliases@, identities@));
    let mut occurrences: Vec<KfxPlacementOccurrence> = Vec::new();
    let mut i: usize = 0;
    while i < raw.len()
        invariant
            0 <= i <= raw@.len(),
            target == raw@.map_values(|x: RawImageReference| raw_occurrence(x, aliases@, identities@)),
            occurrence_views(occurrences@) == target.take(i as int),
        decreases raw@.len() - i,
    {
        let o = raw_occurrence_of(&raw[i], aliases, identities);
        let ghost before = occurrences@;
        occurrences.push(o);
        assert(occurrence_views(occurrences@) =~= occurrence_views(before).push(o@));
        assert(target.take(i + 1) =~= target.take(i as int).push(target[i as int]));
        i = i + 1;
    }
    assert(target.take(i as int) =~= target);
    finalize_placement_stage(occurrences)
}

/// The value of the first entry keyed `k` among resource-keyed entries.
pub open spec fn first_name(s: Seq<(u32, String)>, k: u32) -> Option<Seq<char>>
    decreases s.len(),
{
    if s.len() == 0 {
        None
    } else if s[0].0 == k {
        Some(s[0].1@)
    } else {
        first_name(s.subrange(1, s.len() as int), k)
    }
}

fn name_of_resource(entries: &Vec<(u32, String)>, key: u32) -> (r: Option<String>)
    ensures
        opt_string_view(r) == first_name(entries@, key),
{
    let mut i: usize = 0;
    assert(entries@.subrange(0, entries@.len() as int) =~= entries@);
    while i < entries.len()
        invariant
            0 <= i <= entries@.len(),
            first_name(entries@, key) == first_name(entries@.subrange(i as int, entries@.len() as int), key),
        decreases entries@.len() - i,
    {
        let ghost rest = entries@.subrange(i as int, entries@.len() as int);
        assert(rest.subrange(1, rest.len() as int) =~= entries@.subrange(i + 1, entries@.len() as int));
        assert(rest[0] == entries@[i as int]);
        if entries[i].0 == key {
            return Some(owned(entries[i].1.as_str()));
        }
        i = i + 1;
    }
    None
}

/// The occurrence of a captured placement, named through its resource.
pub open spec fn captured_occurrence(
    c: CapturedImagePlacement,
    aliases: Seq<(String, String)>,
    identities: Seq<(String, String)>,
    names: Seq<(u32, String)>,
) -> OccurrenceView {
    let name = first_name(names, c.resource);
    OccurrenceView {
        source_order: 0,
        resource: opt_lookup(aliases, name),
        alternates: Seq::empty(),
        target: c.position_target_id,
        identity_status: match opt_lookup(identities, name) {
            Some(status) => status,
            None => "unresolved_ir_resource_identity"@,
        },
    }
}

/// The placement stage of the placements captured during decoding.
pub fn placement_stage_from_capture(
    captured: &Vec<CapturedImagePlacement>,
    aliases: &Vec<(String, String)>,
    identities: &Vec<(String, String)>,
    names_by_resource: &Vec<(u32, String)>,
) -> (r: KfxPlacementStage)
    ensures
        stage_ok(r, captured@.map_values(|x: CapturedImagePlacement| captured_occurrence(x, aliases@, identities@, names_by_resource@))),
{
    let ghost target = captured@.map_values(|x: CapturedImagePlacement| captured_occurrence(x, aliases@, identities@, names_by_resource@));
    let mut occurrences: Vec<KfxPlacementOccurrence> = Vec::new();
    let mut i: usize = 0;
    while i < captured.len()
        invariant
            0 <= i <= captured@.len(),
            target == captured@.map_values(|x: CapturedImagePlacement| captured_occurrence(x, aliases@, identities@, names_by_resource@)),
            occurrence_views(occurrences@) == target.take(i as int),
        decreases captured@.len() - i,
    {
        let c = captured[i];
        let name = name_of_resource(names_by_resource, c.resource);
        let status = match opt_lookup_of(identities, &name) {
            Some(st) => st,
            None => owned("unresolved_ir_resource_identity"),
        };
        let alternates: Vec<String> = Vec::new();
        let o = KfxPlacementOccurrence {
            source_order: 0,
            resource: opt_lookup_of(aliases, &name),
            alternate_symbol_resources_audit_only: alternates,
            source_position_target_id: c.position_target_id,
            identity_status: status,
        };
        assert(o@.alternates =~= Seq::<Seq<char>>::empty());
        let ghost before = occurrences@;
        occurrences.push(o);
        assert(occurrence_views(occurrences@) =~= occurrence_views(before).push(o@));
        assert(target.take(i + 1) =~= target.take(i as int).push(target[i as int]));
        i = i + 1;
    }
    assert(target.take(i as int) =~= target);
    finalize_placement_stage(occurrences)
}

/// How a placement audit sums up resource identity.
#[derive(Debug)]
pub struct KfxPlacementIdentitySummary {
    pub external_resource_records: usize,
    pub raw_image_reference_names: usize,
    pub exact_image_identities: usize,
    pub unresolved_or_ambiguous_identities: usize,
    pub resource_alias_policy: String,
    pub resource_alias_catalog: Vec<String>,
    pub raw_reference_resolution_counts: Vec<KfxPlacementResolutionCount>,
}

/// The EPUB manifest id that a resource alias is written under.
#[derive(Debug)]
pub struct KfxPlacementEpubResource {
    pub resource: String,
    pub manifest_id: String,
}

pub open spec fn exact_status(s: Seq<char>) -> bool {
    s == "exact_image_identity"@
}

/// The names whose identity is exact, in order.
pub open spec fn exact_names(ids: Seq<(String, String)>) -> Seq<Seq<char>>
    decreases ids.len(),
{
    if ids.len() == 0 {
        Seq::empty()
    } else {
        let prev = exact_names(ids.drop_last());
        if exact_status(ids.last().1@) { prev.push(ids.last().0@) } else { prev }
    }
}

/// A decimal numeral padded with zeros to at least four digits.
pub open spec fn pad4(d: Seq<char>) -> Seq<char> {
    if d.len() >= 4 {
        d
    } else {
        Seq::new((4 - d.len()) as nat, |i: int| '0') + d
    }
}

/// The alias of the `n`-th exact name (from one).
pub open spec fn image_alias(n: nat) -> Seq<char> {
    "img_"@ + pad4(decimal(n))
}

/// Each exact name with its alias, `img_0001` onwards, in order.
pub open spec fn aliases_spec(ids: Seq<(String, String)>) -> Seq<(Seq<char>, Seq<char>)> {
    Seq::new(exact_names(ids).len(), |i: int| (exact_names(ids)[i], image_alias((i + 1) as nat)))
}

pub open spec fn entry_views(s: Seq<(String, String)>) -> Seq<(Seq<char>, Seq<char>)> {
    s.map_values(|p: (String, String)| (p.0@, p.1@))
}

/// `prefix` and `n`, zero-padded to four digits.
pub fn alias4(prefix: &str, n: u64) -> (r: String)
    ensures
        r@ == prefix@ + pad4(decimal(n as nat)),
{
    let mut digits: Vec<char> = Vec::new();
    decimal_into(n, &mut digits);
    assert(digits@ =~= decimal(n as nat));
    let mut out = chars_of(prefix);
    let ghost p = out@;
    let mut z: usize = digits.len();
    while z < 4
        invariant
            digits@.len() <= z <= 4 || (z == digits@.len() && z >= 4),
            out@ == p + Seq::new((z - digits@.len()) as nat, |i: int| '0'),
        decreases 4 - z,
    {
        out.push('0');
        assert(out@ =~= p + Seq::new((z + 1 - digits@.len()) as nat, |i: int| '0'));
        z = z + 1;
    }
    let ghost q = out@;
    let mut i: usize = 0;
    while i < digits.len()
        invariant
            0 <= i <= digits@.len(),
            out@ == q + digits@.take(i as int),
        decreases digits@.len() - i,
    {
        out.push(digits[i]);
        assert(out@ =~= q + digits@.take(i + 1));
        i = i + 1;
    }
    proof {
        assert(digits@.take(i as int) =~= digits@);
        if digits@.len() >= 4 {
            assert(Seq::new(0nat, |i: int| '0') =~= Seq::<char>::empty());
        }
        assert(out@ =~= prefix@ + pad4(decimal(n as nat)));
    }
    string_from_chars(out.as_slice())
}

proof fn lemma_exact_names_len(ids: Seq<(String, String)>)
    ensures
        exact_names(ids).len() <= ids.len(),
    decreases ids.len(),
{
    if ids.len() > 0 {
        lemma_exact_names_len(ids.drop_last());
    }
}

/// The identity names are strictly ascending (lexically, by character),
/// so each name occurs once and the aliases follow name order.
pub open spec fn names_ascending(identities: Seq<(String, String)>) -> bool {
    sorted_unique(identities.map_values(|p: (String, String)| p.0@))
}

/// The alias of each exact-identity name: `img_` and its position among
/// them, from one, in four digits, in name order.
pub fn placement_aliases(identities: &Vec<(String, String)>) -> (r: Vec<(String, String)>)
    requires
        names_ascending(identities@),
    ensures
        entry_views(r@) == aliases_spec(identities@),
{
    let mut out: Vec<(String, String)> = Vec::new();
    let mut i: usize = 0;
    while i < identities.len()
        invariant
            0 <= i <= identities@.len(),
            entry_views(out@) == aliases_spec(identities@.take(i as int)),
            out@.len() <= i,
        decreases identities@.len() - i,
    {
        let ghost t = identities@.take(i + 1);
        proof {
            assert(t.drop_last() =~= identities@.take(i as int));
            assert(t.last() == identities@[i as int]);
            lemma_exact_names_len(identities@.take(i as int));
        }
        if str_eq(identities[i].1.as_str(), "exact_image_identity") {
            let n = out.len();
            let a = alias4("img_", n as u64 + 1);
            proof {
                reveal_strlit("img_");
            }
            let ghost before = out@;
            let ghost prev = identities@.take(i as int);
            out.push((owned(identities[i].0.as_str()), a));
            proof {
                assert(exact_status(identities@[i as int].1@));
                assert(exact_names(t) =~= exact_names(prev).push(identities@[i as int].0@));
                assert(before.len() == exact_names(prev).len()) by {
                    assert(entry_views(before).len() == aliases_spec(prev).len());
                }
                assert forall|idx: int| 0 <= idx < entry_views(out@).len() implies entry_views(out@)[idx] == aliases_spec(t)[idx] by {
                    if idx < before.len() {
                        assert(entry_views(out@)[idx] == entry_views(before)[idx]);
                        assert(entry_views(before)[idx] == aliases_spec(prev)[idx]);
                    } else {
                        assert(idx == n);
                    }
                }
            }
            assert(entry_views(out@) =~= aliases_spec(t));
        } else {
            assert(aliases_spec(t) =~= aliases_spec(identities@.take(i as int)));
        }
        i = i + 1;
    }
    assert(identities@.take(i as int) =~= identities@);
    out
}

/// Every name that a raw reference gives, as a resource or an alternate.
pub open spec fn raw_name_seq(raw: Seq<RawImageReference>) -> Seq<Seq<char>>
    decreases raw.len(),
{
    if raw.len() == 0 {
        Seq::empty()
    } else {
        let prev = raw_name_seq(raw.drop_last());
        let own: Seq<Seq<char>> = match opt_string_view(raw.last().resource_name) {
            Some(n) => seq![n],
            None => Seq::empty(),
        };
        prev + own + string_views(raw.last().alternate_names_audit_only@)
    }
}

pub open spec fn not_exact_in(ids: Seq<(String, String)>) -> spec_fn(Seq<char>) -> bool {
    |k: Seq<char>| !(first_value(ids, k) matches Some(st) && exact_status(st))
}

pub open spec fn exact_count(ids: Seq<(String, String)>) -> nat {
    exact_names(ids).len()
}

pub open spec fn categories(raw: Seq<RawImageReference>) -> Seq<Seq<char>> {
    raw.map_values(|r: RawImageReference| r.resolution_category@)
}

/// The identity summary of a placement audit.
pub open spec fn identity_summary_ok(
    r: KfxPlacementIdentitySummary,
    external_records: nat,
    raw: Seq<RawImageReference>,
    ids: Seq<(String, String)>,
) -> bool {
    let names = raw_name_seq(raw).to_set();
    &&& r.external_resource_records == external_records
    &&& r.raw_image_reference_names == names.len()
    &&& r.exact_image_identities == exact_count(ids)
    &&& r.unresolved_or_ambiguous_identities == names.filter(not_exact_in(ids)).len()
    &&& r.resource_alias_policy@ == "lexically sorted exact-image KFX $164 FID names; aliases are diagnostic only"@
    &&& string_views(r.resource_alias_catalog@) == aliases_spec(ids).map_values(|p: (Seq<char>, Seq<char>)| p.1)
    &&& sorted_tally(resolution_keys(r.raw_reference_resolution_counts@), resolution_counts(r.raw_reference_resolution_counts@), categories(raw))
}

fn insert_all(set: &mut StringSet, names: &Vec<String>)
    requires
        old(set).wf(),
    ensures
        final(set).wf(),
        final(set).set() == old(set).set() + string_views(names@).to_set(),
{
    let ghost start = set.set();
    let mut i: usize = 0;
    while i < names.len()
        invariant
            0 <= i <= names@.len(),
            set.wf(),
            set.set() == start + string_views(names@).take(i as int).to_set(),
        decreases names@.len() - i,
    {
        let ghost sv = string_views(names@);
        proof {
            let u = sv.take(i + 1);
            let w = sv.take(i as int);
            let x0 = names@[i as int]@;
            assert(u =~= w.push(x0));
            assert(u.to_set() =~= w.to_set().insert(x0)) by {
                assert forall|x: Seq<char>| u.to_set().contains(x) implies w.to_set().insert(x0).contains(x) by {
                    let k = choose|k: int| 0 <= k < u.len() && u[k] == x;
                    if k < w.len() {
                        assert(w[k] == x);
                    }
                }
                assert forall|x: Seq<char>| w.to_set().insert(x0).contains(x) implies u.to_set().contains(x) by {
                    if x == x0 {
                        assert(u[w.len() as int] == x);
                    } else {
                        let k = choose|k: int| 0 <= k < w.len() && w[k] == x;
                        assert(u[k] == x);
                    }
                }
            }
        }
        set.insert_str(names[i].as_str());
        assert(set.set() =~= start + string_views(names@).take(i + 1).to_set());
        i = i + 1;
    }
    assert(string_views(names@).take(i as int) =~= string_views(names@));
}

proof fn lemma_seq_concat_to_set(a: Seq<Seq<char>>, b: Seq<Seq<char>>)
    ensures
        (a + b).to_set() == a.to_set() + b.to_set(),
{
    assert forall|x: Seq<char>| (a + b).to_set().contains(x) implies (a.to_set() + b.to_set()).contains(x) by {
        let k = choose|k: int| 0 <= k < (a + b).len() && (a + b)[k] == x;
        if k < a.len() {
            assert(a[k] == x);
        } else {
            assert(b[k - a.len()] == x);
        }
    }
    assert forall|x: Seq<char>| (a.to_set() + b.to_set()).contains(x) implies (a + b).to_set().contains(x) by {
        if a.to_set().contains(x) {
            let k = choose|k: int| 0 <= k < a.len() && a[k] == x;
            assert((a + b)[k] == x);
        } else {
            let k = choose|k: int| 0 <= k < b.len() && b[k] == x;
            assert((a + b)[a.len() + k] == x);
        }
    }
    assert((a + b).to_set() =~= a.to_set() + b.to_set());
}

/// The identity summary of a placement audit: `external_records` is the
/// number of external resource records, `raw` the raw image references
/// and `identities` each name's identity status, in name order.
pub fn placement_identity_summary(
    external_records: usize,
    raw: &Vec<RawImageReference>,
    identities: &Vec<(String, String)>,
) -> (r: KfxPlacementIdentitySummary)
    requires
        names_ascending(identities@),
    ensures
        identity_summary_ok(r, external_records as nat, raw@, identities@),
{
    let mut names = StringSet::new();
    let mut cats: Vec<String> = Vec::new();
    let mut i: usize = 0;
    while i < raw.len()
        invariant
            0 <= i <= raw@.len(),
            names.wf(),
            names.set() == raw_name_seq(raw@.take(i as int)).to_set(),
            string_views(cats@) == categories(raw@.take(i as int)),
        decreases raw@.len() - i,
    {
        let ghost t = raw@.take(i + 1);
        let ghost prev = raw_name_seq(raw@.take(i as int));
        proof {
            assert(t.drop_last() =~= raw@.take(i as int));
            assert(t.last() == raw@[i as int]);
        }
        let r = &raw[i];
        let ghost own: Seq<Seq<char>> = match opt_string_view(r.resource_name) {
            Some(n) => seq![n],
            None => Seq::empty(),
        };
        match &r.resource_name {
            Some(n) => {
                names.insert_str(n.as_str());
                proof {
                    let one: Seq<Seq<char>> = seq![n@];
                    assert(one[0] == n@);
                    assert forall|x: Seq<char>| one.to_set().contains(x) implies x == n@ by {
                        let k = choose|k: int| 0 <= k < one.len() && one[k] == x;
                    }
                    assert(one.to_set() =~= Set::empty().insert(n@));
                }
            },
            None => {
                assert(own.to_set() =~= Set::<Seq<char>>::empty());
            },
        }
        assert(names.set() =~= prev.to_set() + own.to_set());
        insert_all(&mut names, &r.alternate_names_audit_only);
        proof {
            lemma_seq_concat_to_set(prev, own);
            lemma_seq_concat_to_set(prev + own, string_views(r.alternate_names_audit_only@));
            assert(raw_name_seq(t) == prev + own + string_views(r.alternate_names_audit_only@));
            assert(names.set() =~= raw_name_seq(t).to_set());
        }
        let ghost cb = cats@;
        cats.push(owned(r.resolution_category.as_str()));
        assert(string_views(cats@) =~= string_views(cb).push(r.resolution_category@));
        assert(categories(t) =~= categories(raw@.take(i as int)).push(r.resolution_category@));
        i = i + 1;
    }
    assert(raw@.take(i as int) =~= raw@);
    let ghost all = raw_name_seq(raw@).to_set();
    let name_count = names.len();
    let keys = names.to_vec();
    let ghost kv = string_views(keys@);
    proof {
        lemma_sorted_no_duplicates(kv);
    }
    let mut open_count: usize = 0;
    let mut k: usize = 0;
    while k < keys.len()
        invariant
            0 <= k <= keys@.len(),
            kv == string_views(keys@),
            kv.len() == keys@.len(),
            open_count == kv.take(k as int).filter(not_exact_in(identities@)).len(),
            open_count <= k,
        decreases keys@.len() - k,
    {
        proof {
            assert(kv.take(k + 1) =~= kv.take(k as int).push(kv[k as int]));
            kv.take(k as int).lemma_filter_push(kv[k as int], not_exact_in(identities@));
            assert(kv[k as int] == keys@[k as int]@);
        }
        let status = lookup(identities, keys[k].as_str());
        let exact = match &status {
            Some(st) => str_eq(st.as_str(), "exact_image_identity"),
            None => false,
        };
        if !exact {
            open_count = open_count + 1;
        }
        k = k + 1;
    }
    proof {
        assert(kv.take(k as int) =~= kv);
        lemma_filter_card(kv, not_exact_in(identities@));
    }
    let aliases = placement_aliases(identities);
    let mut catalog: Vec<String> = Vec::new();
    let mut j: usize = 0;
    while j < aliases.len()
        invariant
            0 <= j <= aliases@.len(),
            string_views(catalog@) == entry_views(aliases@).take(j as int).map_values(|p: (Seq<char>, Seq<char>)| p.1),
        decreases aliases@.len() - j,
    {
        let ghost before = catalog@;
        catalog.push(owned(aliases[j].1.as_str()));
        proof {
            let ev = entry_views(aliases@);
            assert(ev[j as int] == (aliases@[j as int].0@, aliases@[j as int].1@));
            assert(ev.take(j + 1) =~= ev.take(j as int).push(ev[j as int]));
            assert(ev.take(j + 1).map_values(|p: (Seq<char>, Seq<char>)| p.1) =~= ev.take(j as int).map_values(|p: (Seq<char>, Seq<char>)| p.1).push(aliases@[j as int].1@));
            assert(string_views(catalog@) =~= string_views(before).push(aliases@[j as int].1@));
        }
        j = j + 1;
    }
    assert(entry_views(aliases@).take(j as int) =~= entry_views(aliases@));
    let exact_total = aliases.len();
    KfxPlacementIdentitySummary {
        external_resource_records: external_records,
        raw_image_reference_names: name_count,
        exact_image_identities: exact_total,
        unresolved_or_ambiguous_identities: open_count,
        resource_alias_policy: owned("lexically sorted exact-image KFX $164 FID names; aliases are diagnostic only"),
        resource_alias_catalog: catalog,
        raw_reference_resolution_counts: placement_resolution_counts(&cats),
    }
}

pub struct EpubResourceView {
    pub resource: Seq<char>,
    pub manifest_id: Seq<char>,
}

impl View for KfxPlacementEpubResource {
    type V = EpubResourceView;

    open spec fn view(&self) -> EpubResourceView {
        EpubResourceView { resource: self.resource@, manifest_id: self.manifest_id@ }
    }
}

/// The aliased resources with the manifest id the EPUB writer gives each
/// (`res` and the resource id), in the order of `names`.
pub open spec fn epub_map_spec(names: Seq<(u32, String)>, aliases: Seq<(String, String)>) -> Seq<EpubResourceView>
    decreases names.len(),
{
    if names.len() == 0 {
        Seq::empty()
    } else {
        let prev = epub_map_spec(names.drop_last(), aliases);
        match first_value(aliases, names.last().1@) {
            Some(a) => prev.push(EpubResourceView { resource: a, manifest_id: "res"@ + decimal(names.last().0 as nat) }),
            None => prev,
        }
    }
}

pub open spec fn epub_views(s: Seq<KfxPlacementEpubResource>) -> Seq<EpubResourceView> {
    s.map_values(|e: KfxPlacementEpubResource| e@)
}

/// The EPUB manifest entries of the aliased resources.
pub fn epub_resource_map(names_by_resource: &Vec<(u32, String)>, aliases: &Vec<(String, String)>) -> (r: Vec<KfxPlacementEpubResource>)
    ensures
        epub_views(r@) == epub_map_spec(names_by_resource@, aliases@),
{
    let mut out: Vec<KfxPlacementEpubResource> = Vec::new();
    let mut i: usize = 0;
    while i < names_by_resource.len()
        invariant
            0 <= i <= names_by_resource@.len(),
            epub_views(out@) == epub_map_spec(names_by_resource@.take(i as int), aliases@),
        decreases names_by_resource@.len() - i,
    {
        proof {
            assert(names_by_resource@.take(i + 1).drop_last() =~= names_by_resource@.take(i as int));
            assert(names_by_resource@.take(i + 1).last() == names_by_resource@[i as int]);
        }
        match lookup(aliases, names_by_resource[i].1.as_str()) {
            Some(alias) => {
                let id = decimal_string(names_by_resource[i].0 as u64);
                let manifest_id = join2("res", id.as_str());
                proof {
                    reveal_strlit("res");
                }
                let ghost before = out@;
                out.push(KfxPlacementEpubResource { resource: alias, manifest_id });
                assert(epub_views(out@) =~= epub_views(before).push(out@.last()@));
            },
            None => {},
        }
        i = i + 1;
    }
    assert(names_by_resource@.take(i as int) =~= names_by_resource@);
    out
}

/// Content-free, occurrence-preserving trace of KFX image placements.
/// Resource aliases are local to this report; raw names, text and paths
/// are left out. A diagnostic report, never an import rule.
#[derive(Debug)]
pub struct KfxPlacementAudit {
    pub schema_version: u32,
    pub input_sha256_audit_only: String,
    pub resource_identity: KfxPlacementIdentitySummary,
    pub raw_reference: KfxPlacementStage,
    pub native_placement: KfxPlacementStage,
    pub semantic_placement: KfxPlacementStage,
    pub ir_image_nodes: KfxPlacementStage,
    pub epub_resource_map: Vec<KfxPlacementEpubResource>,
}

/// What decoding tells the placement audit: each name's identity status
/// (in name order), the name of each resource id, and the placements
/// captured at the native, semantic and final stages.
#[derive(Debug)]
pub struct PlacementEvidence {
    pub identities: Vec<(String, String)>,
    pub names_by_resource: Vec<(u32, String)>,
    pub raw_references: Vec<RawImageReference>,
    pub native: Vec<CapturedImagePlacement>,
    pub semantic: Vec<CapturedImagePlacement>,
    pub ir: Vec<CapturedImagePlacement>,
}

pub open spec fn raw_stage_ok(r: KfxPlacementStage, raw: Seq<RawImageReference>, aliases: Seq<(String, String)>, ids: Seq<(String, String)>) -> bool {
    stage_ok(r, raw.map_values(|x: RawImageReference| raw_occurrence(x, aliases, ids)))
}

pub open spec fn captured_stage_ok(
    r: KfxPlacementStage,
    c: Seq<CapturedImagePlacement>,
    aliases: Seq<(String, String)>,
    ids: Seq<(String, String)>,
    names: Seq<(u32, String)>,
) -> bool {
    stage_ok(r, c.map_values(|x: CapturedImagePlacement| captured_occurrence(x, aliases, ids, names)))
}

/// The placement audit of `bytes` (with `external_records` external
/// resource records) from what decoding told it.
pub open spec fn placement_audit_ok(r: KfxPlacementAudit, bytes: Seq<u8>, external_records: nat, e: PlacementEvidence, aliases: Seq<(String, String)>) -> bool {
    &&& entry_views(aliases) == aliases_spec(e.identities@)
    &&& r.schema_version == 1
    &&& r.input_sha256_audit_only@ == hex_spec(sha256(bytes))
    &&& identity_summary_ok(r.resource_identity, external_records, e.raw_references@, e.identities@)
    &&& raw_stage_ok(r.raw_reference, e.raw_references@, aliases, e.identities@)
    &&& captured_stage_ok(r.native_placement, e.native@, aliases, e.identities@, e.names_by_resource@)
    &&& captured_stage_ok(r.semantic_placement, e.semantic@, aliases, e.identities@, e.names_by_resource@)
    &&& captured_stage_ok(r.ir_image_nodes, e.ir@, aliases, e.identities@, e.names_by_resource@)
    &&& epub_views(r.epub_resource_map@) == epub_map_spec(e.names_by_resource@, aliases)
}

/// Assembles the placement audit; the aliases are those of the exact
/// identities, `img_0001` onwards in the order given.
pub fn placement_audit(bytes: &[u8], external_records: usize, evidence: &PlacementEvidence) -> (r: KfxPlacementAudit)
    requires
        names_ascending(evidence.identities@),
    ensures
        exists|aliases: Seq<(String, String)>| #[trigger] placement_audit_ok(r, bytes@, external_records as nat, *evidence, aliases),
{
    let aliases = placement_aliases(&evidence.identities);
    let ghost av = aliases@;
    proof {
        assert(entry_views(av) == aliases_spec(evidence.identities@));
    }
    let digest = sha256_digest(bytes);
    let r = KfxPlacementAudit {
        schema_version: 1,
        input_sha256_audit_only: hex_lower(digest.as_slice()),
        resource_identity: placement_identity_summary(external_records, &evidence.raw_references, &evidence.identities),
        raw_reference: placement_stage_from_raw(&evidence.raw_references, &aliases, &evidence.identities),
        native_placement: placement_stage_from_capture(&evidence.native, &aliases, &evidence.identities, &evidence.names_by_resource),
        semantic_placement: placement_stage_from_capture(&evidence.semantic, &aliases, &evidence.identities, &evidence.names_by_resource),
        ir_image_nodes: placement_stage_from_capture(&evidence.ir, &aliases, &evidence.identities, &evidence.names_by_resource),
        epub_resource_map: epub_resource_map(&evidence.names_by_resource, &aliases),
    };
    assert(placement_audit_ok(r, bytes@, external_records as nat, *evidence, aliases@));
    r
}

/// `r` is the placement audit of `bytes` for some aliasing of the exact
/// identities (the one `placement_aliases` gives).
pub open spec fn placement_audit_from(r: KfxPlacementAudit, bytes: Seq<u8>, external_records: nat, e: PlacementEvidence) -> bool {
    exists|aliases: Seq<(String, String)>| #[trigger] placement_audit_ok(r, bytes, external_records, e, aliases)
}

/// The message of the header error for an input that is not a CONT file.
pub open spec fn placement_header_message() -> Seq<char> {
    "placement audit requires an Amazon CONT KFX input"@
}

/// What resolving the resource paths and decoding the book tell the placement
/// audit: each name's identity status (in name order), the name of each
/// resource id, the normalized location of each raw name, the one name at
/// each location, and the placements captured at the native, semantic and
/// final stages.
#[derive(Debug)]
pub struct PlacementInputs {
    pub identities: Vec<(String, String)>,
    pub names_by_resource: Vec<(u32, String)>,
    pub locations: Vec<(String, String)>,
    pub names_by_location: Vec<(String, String)>,
    pub native: Vec<CapturedImagePlacement>,
    pub semantic: Vec<CapturedImagePlacement>,
    pub ir: Vec<CapturedImagePlacement>,
}

/// `e` is the evidence of book `m` with `inputs`: the inputs as given, and
/// the raw references read from the content fragments of `m`.
pub open spec fn evidence_from(e: PlacementEvidence, inputs: PlacementInputs, m: NativeModelView) -> bool {
    &&& e.identities@ == inputs.identities@
    &&& e.names_by_resource@ == inputs.names_by_resource@
    &&& e.native@ == inputs.native@
    &&& e.semantic@ == inputs.semantic@
    &&& e.ir@ == inputs.ir@
    &&& raw_ref_views(e.raw_references@)
        == raw_refs_spec(m.containers, m.fragments, inputs.identities@, inputs.locations@, inputs.names_by_location@)
}

/// `a` is the placement audit of `bytes` for the evidence that `inputs`
/// and the book `m` give.
pub open spec fn placement_from_inputs(a: KfxPlacementAudit, bytes: Seq<u8>, external_records: nat, inputs: PlacementInputs, m: NativeModelView) -> bool {
    exists|e: PlacementEvidence| #[trigger] placement_audit_from(a, bytes, external_records, e) && evidence_from(e, inputs, m)
}

/// The placement audit of one input: it must be a CONT file, it must parse
/// and it must not be DRM protected; the external resource records counted
/// are the fragments of type `$164`, and the raw references are those its
/// content fragments make.
pub fn audit_placements(bytes: &[u8], inputs: PlacementInputs) -> (r: Result<KfxPlacementAudit, AmazonKfxError>)
    requires
        names_ascending(inputs.identities@),
    ensures
        !has_cont_prefix(bytes@) ==> (r matches Err(e) && e@ == KfxErrorView::InvalidHeader(placement_header_message())),
        has_cont_prefix(bytes@) ==> (native_spec(seq![bytes@], ParseMode::Compatible) matches Err(e)
            ==> (r matches Err(x) && x@ == e)),
        has_cont_prefix(bytes@) ==> (native_spec(seq![bytes@], ParseMode::Compatible) matches Ok(m)
            ==> (m.drm_detected ==> (r matches Err(x) && x@ == KfxErrorView::ProtectedContent))),
        has_cont_prefix(bytes@) ==> (native_spec(seq![bytes@], ParseMode::Compatible) matches Ok(m)
            ==> (!m.drm_detected ==> (r matches Ok(a)
                && placement_from_inputs(a, bytes@, positions_of_type(m.fragments, 164).len(), inputs, m)))),
{
    if !(bytes.len() >= 4 && bytes[0] == 0x43 && bytes[1] == 0x4f && bytes[2] == 0x4e && bytes[3] == 0x54) {
        return Err(AmazonKfxError::InvalidHeader(owned("placement audit requires an Amazon CONT KFX input")));
    }
    let model = match parse_native(bytes, ParseMode::Compatible) {
        Ok(m) => m,
        Err(e) => return Err(e),
    };
    assert(model.drm_detected == model@.drm_detected);
    if model.drm_detected {
        return Err(AmazonKfxError::ProtectedContent);
    }
    let ghost given = inputs;
    let external = fragment_positions(&model.fragments, 164);
    assert(fragment_views(model.fragments@) == model@.fragments);
    assert(external@.len() == positions_of_type(model@.fragments, 164).len());
    let raw_references = collect_raw_image_references(&model, &inputs.identities, &inputs.locations, &inputs.names_by_location);
    let evidence = PlacementEvidence {
        identities: inputs.identities,
        names_by_resource: inputs.names_by_resource,
        raw_references,
        native: inputs.native,
        semantic: inputs.semantic,
        ir: inputs.ir,
    };
    let a = placement_audit(bytes, external.len(), &evidence);
    proof {
        let w = choose|aliases: Seq<(String, String)>| #[trigger] placement_audit_ok(a, bytes@, external.len() as nat, evidence, aliases);
        let m = native_spec(seq![bytes@], ParseMode::Compatible)->Ok_0;
        assert(m == model@);
        assert(placement_audit_ok(a, bytes@, positions_of_type(m.fragments, 164).len(), evidence, w));
        assert(placement_audit_from(a, bytes@, positions_of_type(m.fragments, 164).len(), evidence));
        assert(evidence_from(evidence, given, m));
        assert(placement_from_inputs(a, bytes@, positions_of_type(m.fragments, 164).len(), given, m));
    }
    Ok(a)
}

} // verus!
