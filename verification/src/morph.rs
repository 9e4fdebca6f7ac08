//! Morph vocabulary: the anatomical zones of the slider catalog, how a
//! slider deforms, which archetype it applies to, and the uniform header of
//! the sparse morph compute pass.
use vstd::prelude::*;

verus! {

/// Uniform header of the sparse morph compute shader (four 32-bit words).
#[derive(Debug, Clone, Copy, PartialEq, Eq, Structural)]
pub struct SparseMorphHeader {
    pub active_channel_count: u32,
    pub total_vertex_count: u32,
    pub total_delta_count: u32,
    pub _pad: u32,
}

impl SparseMorphHeader {
    /// A header with the padding word zeroed.
    pub fn new(active_channel_count: u32, total_vertex_count: u32, total_delta_count: u32) -> (h: Self)
        ensures
            h.active_channel_count == active_channel_count,
            h.total_vertex_count == total_vertex_count,
            h.total_delta_count == total_delta_count,
            h._pad == 0,
    {
        SparseMorphHeader { active_channel_count, total_vertex_count, total_delta_count, _pad: 0 }
    }
}

/// The anatomical regions and stylization zones of the slider catalog.
#[derive(Debug, Clone, Copy, PartialEq, Eq, Hash, Structural)]
pub enum AnatomicalZone {
    GlobalSilhouette,
    Craniofacial,
    Eyes,
    Eyebrows,
    Nose,
    MouthLips,
    JawChin,
    Ears,
    NeckTrapezius,
    ShouldersClavicles,
    ChestPectorals,
    BustFemale,
    AbdomenWaist,
    PelvisHips,
    Gluteus,
    UpperLimbs,
    HandsFingers,
    LowerLimbs,
}

/// Display name of a zone.
pub open spec fn zone_name(zone: AnatomicalZone) -> Seq<char> {
    match zone {
        AnatomicalZone::GlobalSilhouette => "Proporções Globais & Silhueta"@,
        AnatomicalZone::Craniofacial => "Crânio e Estrutura Craniofacial"@,
        AnatomicalZone::Eyes => "Olhos e Órbitas Anime"@,
        AnatomicalZone::Eyebrows => "Sobrancelhas Estruturais"@,
        AnatomicalZone::Nose => "Nariz Estilizado Anime"@,
        AnatomicalZone::MouthLips => "Boca e Lábios"@,
        AnatomicalZone::JawChin => "Mandíbula, Queixo e Linha V"@,
        AnatomicalZone::Ears => "Orelhas Anime/Élficas"@,
        AnatomicalZone::NeckTrapezius => "Pescoço e Trapézio"@,
        AnatomicalZone::ShouldersClavicles => "Ombros, Clavículas e Dorsal"@,
        AnatomicalZone::ChestPectorals => "Tórax e Peitorais Masculinos"@,
        AnatomicalZone::BustFemale => "Busto e Glândulas Mamárias Femininas"@,
        AnatomicalZone::AbdomenWaist => "Abdômen, Cintura e Flancos"@,
        AnatomicalZone::PelvisHips => "Pelve, Bacia e Curva do Quadril"@,
        AnatomicalZone::Gluteus => "Glúteos e Nádegas"@,
        AnatomicalZone::UpperLimbs => "Braços, Antebraços e Cotovelos"@,
        AnatomicalZone::HandsFingers => "Mãos e Dedos"@,
        AnatomicalZone::LowerLimbs => "Pernas, Joelhos, Panturrilhas e Pés"@,
    }
}

impl AnatomicalZone {
    /// Display name of the zone.
    pub fn name(&self) -> (n: &'static str)
        ensures
            n@ == zone_name(*self),
    {
        match self {
            AnatomicalZone::GlobalSilhouette => "Proporções Globais & Silhueta",
            AnatomicalZone::Craniofacial => "Crânio e Estrutura Craniofacial",
            AnatomicalZone::Eyes => "Olhos e Órbitas Anime",
            AnatomicalZone::Eyebrows => "Sobrancelhas Estruturais",
            AnatomicalZone::Nose => "Nariz Estilizado Anime",
            AnatomicalZone::MouthLips => "Boca e Lábios",
            AnatomicalZone::JawChin => "Mandíbula, Queixo e Linha V",
            AnatomicalZone::Ears => "Orelhas Anime/Élficas",
            AnatomicalZone::NeckTrapezius => "Pescoço e Trapézio",
            AnatomicalZone::ShouldersClavicles => "Ombros, Clavículas e Dorsal",
            AnatomicalZone::ChestPectorals => "Tórax e Peitorais Masculinos",
            AnatomicalZone::BustFemale => "Busto e Glândulas Mamárias Femininas",
            AnatomicalZone::AbdomenWaist => "Abdômen, Cintura e Flancos",
            AnatomicalZone::PelvisHips => "Pelve, Bacia e Curva do Quadril",
            AnatomicalZone::Gluteus => "Glúteos e Nádegas",
            AnatomicalZone::UpperLimbs => "Braços, Antebraços e Cotovelos",
            AnatomicalZone::HandsFingers => "Mãos e Dedos",
            AnatomicalZone::LowerLimbs => "Pernas, Joelhos, Panturrilhas e Pés",
        }
    }
}

/// Deformation mechanism governing a slider.
#[derive(Debug, Clone, Copy, PartialEq, Eq, Hash, Structural)]
pub enum SliderMechanism {
    /// Pure vertex blendshape delta accumulation.
    Morph,
    /// Skeletal joint translation offsets.
    BoneDelta,
    /// Morph sculpt coupled with a bone offset.
    Dual,
}

/// Gender dimorphic restriction of a slider.
#[derive(Debug, Clone, Copy, PartialEq, Eq, Hash, Structural)]
pub enum GenderDimorphism {
    Both,
    MaleOnly,
    FemaleOnly,
}

// ---------------------------------------------------------------------------
// Channel layout of the packed delta buffer
// ---------------------------------------------------------------------------

/// Where the deltas of one morph target land in the packed GPU buffer.
#[derive(Debug, Clone, Copy, PartialEq, Eq, Structural)]
pub struct ChannelSlot {
    /// Index of the target.
    pub target: usize,
    /// Index of its first delta in the packed buffer.
    pub start_offset: u32,
    /// Number of its deltas.
    pub delta_count: u32,
}

/// Number of deltas packed from the first `k` targets: the counts of the
/// included ones.
pub open spec fn packed_before(counts: Seq<usize>, kept: Seq<bool>, k: int) -> int
    decreases k,
{
    if k <= 0 {
        0
    } else {
        packed_before(counts, kept, k - 1) + if kept[k - 1] {
            counts[k - 1] as int
        } else {
            0
        }
    }
}

/// The slots of the included targets among the first `k`, in target order,
/// each starting where the previous one ends (offsets and counts are 32-bit,
/// as the GPU buffers take them).
pub open spec fn slots_upto(counts: Seq<usize>, kept: Seq<bool>, k: int) -> Seq<ChannelSlot>
    decreases k,
{
    if k <= 0 {
        Seq::empty()
    } else if kept[k - 1] {
        slots_upto(counts, kept, k - 1).push(
            ChannelSlot {
                target: (k - 1) as usize,
                start_offset: packed_before(counts, kept, k - 1) as u32,
                delta_count: counts[k - 1] as u32,
            },
        )
    } else {
        slots_upto(counts, kept, k - 1)
    }
}

proof fn lemma_packed_before_monotone(counts: Seq<usize>, kept: Seq<bool>, j: int, k: int)
    requires
        0 <= j <= k,
    ensures
        0 <= packed_before(counts, kept, j) <= packed_before(counts, kept, k),
    decreases k,
{
    if k > j {
        lemma_packed_before_monotone(counts, kept, j, k - 1);
    } else if k > 0 {
        lemma_packed_before_monotone(counts, kept, 0, k - 1);
    }
}

/// The slots of the included targets and the number of packed deltas.
fn channel_layout(counts: &[usize], kept: &[bool]) -> (r: (Vec<ChannelSlot>, usize))
    requires
        counts.len() == kept.len(),
        packed_before(counts@, kept@, counts.len() as int) <= usize::MAX,
    ensures
        r.0@ == slots_upto(counts@, kept@, counts.len() as int),
        r.1 == packed_before(counts@, kept@, counts.len() as int),
{
    let n = counts.len();
    let mut slots: Vec<ChannelSlot> = Vec::new();
    let mut total: usize = 0;
    let mut i: usize = 0;
    while i < n
        invariant
            i <= n == counts.len() == kept.len(),
            packed_before(counts@, kept@, n as int) <= usize::MAX,
            slots@ == slots_upto(counts@, kept@, i as int),
            total == packed_before(counts@, kept@, i as int),
        decreases n - i,
    {
        proof {
            lemma_packed_before_monotone(counts@, kept@, i as int + 1, n as int);
        }
        if kept[i] {
            let start: u32 = #[verifier::truncate] (total as u32);
            let count: u32 = #[verifier::truncate] (counts[i] as u32);
            slots.push(ChannelSlot { target: i, start_offset: start, delta_count: count });
            total = total + counts[i];
        }
        i += 1;
    }
    (slots, total)
}

/// Which targets the active packing keeps: a weight that counts and some deltas.
pub open spec fn active_inclusion(counts: Seq<usize>, weight_active: Seq<bool>) -> Seq<bool> {
    Seq::new(counts.len(), |i: int| weight_active[i] && counts[i] > 0)
}

/// Layout of the active channels for GPU upload: the targets whose weight
/// counts (`weight_active`, decided by the caller from the weights) and that
/// have deltas, packed one after the other; the header counts them and
/// their deltas.
pub fn pack_active_channels(delta_counts: &[usize], weight_active: &[bool], total_vertex_count: u32) -> (r: (
    SparseMorphHeader,
    Vec<ChannelSlot>,
))
    requires
        weight_active.len() == delta_counts.len(),
        packed_before(delta_counts@, active_inclusion(delta_counts@, weight_active@), delta_counts.len() as int)
            <= usize::MAX,
    ensures
        ({
            let kept = active_inclusion(delta_counts@, weight_active@);
            let n = delta_counts.len() as int;
            &&& r.1@ == slots_upto(delta_counts@, kept, n)
            &&& r.0.active_channel_count == r.1@.len() as u32
            &&& r.0.total_vertex_count == total_vertex_count
            &&& r.0.total_delta_count == packed_before(delta_counts@, kept, n) as u32
            &&& r.0._pad == 0
        }),
{
    let mut kept: Vec<bool> = Vec::new();
    let mut i: usize = 0;
    while i < delta_counts.len()
        invariant
            i <= delta_counts.len() == weight_active.len(),
            kept@ == active_inclusion(delta_counts@, weight_active@).take(i as int),
        decreases delta_counts.len() - i,
    {
        kept.push(weight_active[i] && delta_counts[i] > 0);
        assert(kept@ =~= active_inclusion(delta_counts@, weight_active@).take(i as int + 1));
        i += 1;
    }
    assert(kept@ =~= active_inclusion(delta_counts@, weight_active@));
    let (slots, total) = channel_layout(delta_counts, kept.as_slice());
    let header = SparseMorphHeader::new(
        #[verifier::truncate] (slots.len() as u32),
        total_vertex_count,
        #[verifier::truncate] (total as u32),
    );
    (header, slots)
}

/// Every target included.
pub open spec fn all_included(n: nat) -> Seq<bool> {
    Seq::new(n, |i: int| true)
}

/// Layout of all channels (active or not) for pre-allocated GPU buffers:
/// every target in order, each starting where the previous one ends.
pub fn pack_all_channels(delta_counts: &[usize], total_vertex_count: u32) -> (r: (SparseMorphHeader, Vec<ChannelSlot>))
    requires
        packed_before(delta_counts@, all_included(delta_counts.len() as nat), delta_counts.len() as int)
            <= usize::MAX,
    ensures
        ({
            let kept = all_included(delta_counts.len() as nat);
            let n = delta_counts.len() as int;
            &&& r.1@ == slots_upto(delta_counts@, kept, n)
            &&& r.0.active_channel_count == r.1@.len() as u32
            &&& r.0.total_vertex_count == total_vertex_count
            &&& r.0.total_delta_count == packed_before(delta_counts@, kept, n) as u32
            &&& r.0._pad == 0
        }),
{
    let mut kept: Vec<bool> = Vec::new();
    let mut i: usize = 0;
    while i < delta_counts.len()
        invariant
            i <= delta_counts.len(),
            kept@ == all_included(delta_counts.len() as nat).take(i as int),
        decreases delta_counts.len() - i,
    {
        kept.push(true);
        assert(kept@ =~= all_included(delta_counts.len() as nat).take(i as int + 1));
        i += 1;
    }
    assert(kept@ =~= all_included(delta_counts.len() as nat));
    let (slots, total) = channel_layout(delta_counts, kept.as_slice());
    let header = SparseMorphHeader::new(
        #[verifier::truncate] (slots.len() as u32),
        total_vertex_count,
        #[verifier::truncate] (total as u32),
    );
    (header, slots)
}

/// The slots of the first `k` targets tile the first `packed_before(k)`
/// deltas (see `law_slots_tile_the_buffer`).
pub open spec fn slots_tile(counts: Seq<usize>, kept: Seq<bool>, k: int) -> bool {
    let s = slots_upto(counts, kept, k);
    let total = packed_before(counts, kept, k);
    &&& s.len() == 0 ==> total == 0
    &&& s.len() > 0 ==> s[0].start_offset == 0
    &&& s.len() > 0 ==> s.last().start_offset + s.last().delta_count == total
    &&& forall|i: int| 0 <= i < s.len() - 1 ==> #[trigger] s[i].start_offset + s[i].delta_count == s[i + 1].start_offset
    &&& forall|i: int|
        0 <= i < s.len() ==> (#[trigger] s[i]).target < k && kept[s[i].target as int] && s[i].delta_count
            == counts[s[i].target as int]
    &&& forall|i: int, j: int| 0 <= i < j < s.len() ==> s[i].target < s[j].target
    &&& forall|t: int| 0 <= t < k && kept[t] ==> exists|i: int| 0 <= i < s.len() && (#[trigger] s[i]).target == t
}

/// The slots tile the packed buffer: in target order, the first starts at
/// 0, each starts where the previous one ends, the last ends at the number
/// of packed deltas, each holds exactly the deltas of its target, and every
/// kept target has its slot; provided that number fits in 32 bits, as GPU
/// offsets do.
pub proof fn law_slots_tile_the_buffer(counts: Seq<usize>, kept: Seq<bool>, k: int)
    requires
        0 <= k <= counts.len() <= usize::MAX,
        packed_before(counts, kept, k) <= u32::MAX,
    ensures
        slots_tile(counts, kept, k),
    decreases k,
{
    if k > 0 {
        lemma_packed_before_monotone(counts, kept, k - 1, k);
        law_slots_tile_the_buffer(counts, kept, k - 1);
        let prev = slots_upto(counts, kept, k - 1);
        let s = slots_upto(counts, kept, k);
        if kept[k - 1] {
            let slot = s.last();
            assert(s =~= prev.push(slot));
            assert(slot.start_offset == packed_before(counts, kept, k - 1));
            assert(counts[k - 1] <= u32::MAX);
            assert(slot.delta_count == counts[k - 1]);
            assert forall|t: int| 0 <= t < k && kept[t] implies exists|i: int|
                0 <= i < s.len() && (#[trigger] s[i]).target == t by {
                if t < k - 1 {
                    let i = choose|i: int| 0 <= i < prev.len() && (#[trigger] prev[i]).target == t;
                    assert(s[i] == prev[i]);
                } else {
                    assert(s[s.len() - 1].target == t);
                }
            }
            assert forall|i: int| 0 <= i < s.len() - 1 implies #[trigger] s[i].start_offset + s[i].delta_count
                == s[i + 1].start_offset by {
                if i < s.len() - 2 {
                    assert(s[i] == prev[i] && s[i + 1] == prev[i + 1]);
                }
            }
        } else {
            assert(s == prev);
        }
    }
}

// ---------------------------------------------------------------------------
// Delta order
// ---------------------------------------------------------------------------

/// `order` sorts `keys` ascending and keeps equal keys in their input
/// order: it lists every position exactly once.
pub open spec fn is_stable_sort_order(keys: Seq<u32>, order: Seq<usize>) -> bool {
    &&& order.len() == keys.len()
    &&& forall|i: int| 0 <= i < order.len() ==> (#[trigger] order[i]) < keys.len()
    &&& order.no_duplicates()
    &&& forall|i: int, j: int| 0 <= i < j < order.len() ==> keys[order[i] as int] <= keys[order[j] as int]
    &&& forall|i: int, j: int|
        0 <= i < j < order.len() && keys[order[i] as int] == keys[order[j] as int] ==> order[i] < order[j]
}

/// The order in which the deltas of a morph target are stored: by vertex
/// index, deltas on the same vertex in the order given (a stable sort, so
/// lookups by vertex can use binary search).
pub fn delta_order(vertex_indices: &[u32]) -> (order: Vec<usize>)
    ensures
        is_stable_sort_order(vertex_indices@, order@),
{
    let keys = vertex_indices;
    let n = keys.len();
    let mut order: Vec<usize> = Vec::new();
    let mut k: usize = 0;
    while k < n
        invariant
            k <= n == keys.len(),
            is_stable_sort_order(keys@.take(k as int), order@),
        decreases n - k,
    {
        let ghost before = order@;
        let ghost pre = keys@.take(k as int);
        assert(keys@.take(k as int + 1) =~= pre.push(keys@[k as int]));
        let mut p: usize = order.len();
        while p > 0 && keys[order[p - 1]] > keys[k]
            invariant
                p <= order.len() == k,
                k < n == keys.len(),
                order@ == before,
                is_stable_sort_order(pre, before),
                pre == keys@.take(k as int),
                forall|j: int| p <= j < order.len() ==> keys@[order@[j] as int] > keys@[k as int],
            decreases p,
        {
            p -= 1;
        }
        proof {
            assert forall|j: int| 0 <= j < p implies keys@[before[j] as int] <= keys@[k as int] by {
                if p > 0 {
                    assert(keys@[before[p - 1] as int] <= keys@[k as int]);
                    if j < p - 1 {
                        assert(pre[before[j] as int] <= pre[before[p - 1] as int]);
                    }
                }
            }
        }
        order.insert(p, k);
        proof {
            let after = order@;
            let ks = keys@.take(k as int + 1);
            assert(after == before.insert(p as int, k));
            assert forall|i: int| 0 <= i < after.len() implies (#[trigger] after[i]) < ks.len() by {
                if i < p {
                    assert(after[i] == before[i]);
                } else if i > p {
                    assert(after[i] == before[i - 1]);
                }
            }
            assert forall|i: int, j: int| 0 <= i < j < after.len() implies after[i] != after[j] by {
                if i < p && j < p {
                    assert(after[i] == before[i] && after[j] == before[j]);
                } else if i < p && j == p {
                    assert(after[i] == before[i]);
                } else if i < p && j > p {
                    assert(after[i] == before[i] && after[j] == before[j - 1]);
                } else if i == p {
                    assert(after[j] == before[j - 1]);
                } else {
                    assert(after[i] == before[i - 1] && after[j] == before[j - 1]);
                }
            }
            assert forall|i: int, j: int| 0 <= i < j < after.len() implies ks[after[i] as int] <= ks[after[j] as int]
                && (ks[after[i] as int] == ks[after[j] as int] ==> after[i] < after[j]) by {
                if i < p && j < p {
                    assert(after[i] == before[i] && after[j] == before[j]);
                    assert(pre[before[i] as int] == ks[before[i] as int]);
                    assert(pre[before[j] as int] == ks[before[j] as int]);
                } else if i < p && j == p {
                    assert(after[i] == before[i]);
                    assert(keys@[before[i] as int] <= keys@[k as int]);
                } else if i < p && j > p {
                    assert(after[i] == before[i] && after[j] == before[j - 1]);
                    assert(pre[before[i] as int] == ks[before[i] as int]);
                    assert(pre[before[j - 1] as int] == ks[before[j - 1] as int]);
                } else if i == p {
                    assert(after[j] == before[j - 1]);
                    assert(keys@[before[j - 1] as int] > keys@[k as int]);
                } else {
                    assert(after[i] == before[i - 1] && after[j] == before[j - 1]);
                    assert(pre[before[i - 1] as int] == ks[before[i - 1] as int]);
                    assert(pre[before[j - 1] as int] == ks[before[j - 1] as int]);
                }
            }
            assert(after.no_duplicates());
        }
        k += 1;
    }
    assert(keys@.take(n as int) =~= keys@);
    order
}

} // verus!
