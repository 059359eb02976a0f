//! The classification vocabulary and the rules that map tensor names to it.
use vstd::prelude::*;
use vstd::string::*;

use crate::text::{ends_with, starts_with};

verus! {

/// The sub-model that an adapter modifies.
#[derive(Clone, Copy, Debug, PartialEq, Eq, Hash, PartialOrd, Ord, Structural)]
pub enum NetworkType {
    Unet,
    SdClip,
    SdxlClip,
    Transformer,
}

/// The adapter technique, for a given network target.
#[derive(Clone, Copy, Debug, PartialEq, Eq, Hash, PartialOrd, Ord, Structural)]
pub enum LoraType {
    /// Plain LoRA: the (m*n) residual matrix as the product of (m*r) and (r*n) matrices
    LoRA(NetworkType),
    /// DoRA type - same as LoRA but with an additional weight vector
    DoRA(NetworkType),
    /// LoHa, representing residual matrix as Hadamard transform
    LoHa(NetworkType),
    /// LoKr, representing residual matrix as Kronecker product
    LoKr(NetworkType),
}

/// A classification tag: a checkpoint kind, an adapter, or a VAE kind.
#[derive(Clone, Copy, Debug, PartialEq, Eq, Hash, PartialOrd, Ord, Structural)]
pub enum ModelType {
    SdCheckpoint,
    SdxlCheckpoint,
    Lora(LoraType),
    BakedVae,
    StandaloneVae,
}

/// Number of distinct classification tags.
pub const TAG_COUNT: usize = 20;

/// Position of a network target in the declaration order.
pub open spec fn network_rank(n: NetworkType) -> int {
    match n {
        NetworkType::Unet => 0,
        NetworkType::SdClip => 1,
        NetworkType::SdxlClip => 2,
        NetworkType::Transformer => 3,
    }
}

pub open spec fn network_at(k: int) -> NetworkType {
    if k == 0 {
        NetworkType::Unet
    } else if k == 1 {
        NetworkType::SdClip
    } else if k == 2 {
        NetworkType::SdxlClip
    } else {
        NetworkType::Transformer
    }
}

/// Position of an adapter tag in the declaration order.
pub open spec fn lora_rank(l: LoraType) -> int {
    match l {
        LoraType::LoRA(n) => network_rank(n),
        LoraType::DoRA(n) => 4 + network_rank(n),
        LoraType::LoHa(n) => 8 + network_rank(n),
        LoraType::LoKr(n) => 12 + network_rank(n),
    }
}

/// Position of a tag in the total order that the derived `Ord` gives:
/// variants in declaration order, then by their field.
pub open spec fn rank(t: ModelType) -> int {
    match t {
        ModelType::SdCheckpoint => 0,
        ModelType::SdxlCheckpoint => 1,
        ModelType::Lora(l) => 2 + lora_rank(l),
        ModelType::BakedVae => 18,
        ModelType::StandaloneVae => 19,
    }
}

/// The tag at a given rank, for ranks below `TAG_COUNT`.
pub open spec fn tag_at(k: int) -> ModelType {
    if k == 0 {
        ModelType::SdCheckpoint
    } else if k == 1 {
        ModelType::SdxlCheckpoint
    } else if k < 6 {
        ModelType::Lora(LoraType::LoRA(network_at(k - 2)))
    } else if k < 10 {
        ModelType::Lora(LoraType::DoRA(network_at(k - 6)))
    } else if k < 14 {
        ModelType::Lora(LoraType::LoHa(network_at(k - 10)))
    } else if k < 18 {
        ModelType::Lora(LoraType::LoKr(network_at(k - 14)))
    } else if k == 18 {
        ModelType::BakedVae
    } else {
        ModelType::StandaloneVae
    }
}

pub proof fn lemma_rank_bijective(t: ModelType)
    ensures
        0 <= rank(t) < TAG_COUNT,
        tag_at(rank(t)) == t,
{
}

pub proof fn lemma_tag_at_rank(k: int)
    requires
        0 <= k < TAG_COUNT,
    ensures
        rank(tag_at(k)) == k,
{
}

/// The adapter target named by a tensor's prefix.
pub open spec fn network_of(name: Seq<char>) -> Option<NetworkType> {
    if "lora_te_"@.is_prefix_of(name) {
        Some(NetworkType::SdClip)
    } else if "lora_te1_"@.is_prefix_of(name) {
        Some(NetworkType::SdxlClip)
    } else if "transformer."@.is_prefix_of(name) {
        Some(NetworkType::Transformer)
    } else if "lora_unet_"@.is_prefix_of(name) {
        Some(NetworkType::Unet)
    } else {
        None
    }
}

/// The adapter technique named by a tensor's suffix, for target `n`.
pub open spec fn technique_of(name: Seq<char>, n: NetworkType) -> Option<LoraType> {
    if "lora_down.weight"@.is_suffix_of(name) || "lora_up.weight"@.is_suffix_of(name)
        || "lora_A.weight"@.is_suffix_of(name) || "lora_B.weight"@.is_suffix_of(name) {
        Some(LoraType::LoRA(n))
    } else if "hada_w1_a"@.is_suffix_of(name) {
        Some(LoraType::LoHa(n))
    } else if "lokr_w1"@.is_suffix_of(name) {
        Some(LoraType::LoKr(n))
    } else if "dora_scale"@.is_suffix_of(name) {
        Some(LoraType::DoRA(n))
    } else {
        None
    }
}

/// The tag that the first matching rule gives a tensor name, if any rule matches.
pub open spec fn tensor_tag(name: Seq<char>) -> Option<ModelType> {
    if "conditioner.embedders.0."@.is_prefix_of(name) {
        Some(ModelType::SdxlCheckpoint)
    } else if "cond_stage_model."@.is_prefix_of(name) {
        Some(ModelType::SdCheckpoint)
    } else if "encoder."@.is_prefix_of(name) {
        Some(ModelType::StandaloneVae)
    } else if "first_stage_model."@.is_prefix_of(name) {
        Some(ModelType::BakedVae)
    } else {
        match network_of(name) {
            None => None,
            Some(n) => match technique_of(name, n) {
                None => None,
                Some(l) => Some(ModelType::Lora(l)),
            },
        }
    }
}

impl ModelType {
    /// Attempt to infer model type from a tensor name
    ///
    /// Given a tensor name, this function _may_ return the type of model it belongs to. In
    /// general, it only returns a non-None value for tensor names that are unique to a model type.
    pub fn from_tensor_name(name: &str, _shape: &[usize]) -> (r: Option<ModelType>)
        ensures
            r == tensor_tag(name@),
    {
        // SDXL has two text models, and SD only has one.
        if starts_with(name, "conditioner.embedders.0.") {
            return Some(ModelType::SdxlCheckpoint);
        }
        if starts_with(name, "cond_stage_model.") {
            return Some(ModelType::SdCheckpoint);
        }
        // Standalone and baked-in VAEs have easily recognized model names
        if starts_with(name, "encoder.") {
            return Some(ModelType::StandaloneVae);
        }
        if starts_with(name, "first_stage_model.") {
            return Some(ModelType::BakedVae);
        }
        // All remaining model types we recognize are some kind of LoRA
        let model = if starts_with(name, "lora_te_") {
            NetworkType::SdClip
        } else if starts_with(name, "lora_te1_") {
            NetworkType::SdxlClip
        } else if starts_with(name, "transformer.") {
            NetworkType::Transformer
        } else if starts_with(name, "lora_unet_") {
            NetworkType::Unet
        } else {
            return None;
        };
        // Then find the adapter technique from the suffix
        let lora_type = if ends_with(name, "lora_down.weight") || ends_with(name, "lora_up.weight")
            || ends_with(name, "lora_A.weight") || ends_with(name, "lora_B.weight") {
            LoraType::LoRA(model)
        } else if ends_with(name, "hada_w1_a") {
            LoraType::LoHa(model)
        } else if ends_with(name, "lokr_w1") {
            LoraType::LoKr(model)
        } else if ends_with(name, "dora_scale") {
            LoraType::DoRA(model)
        } else {
            return None;
        };
        Some(ModelType::Lora(lora_type))
    }
}

impl NetworkType {
    fn rank(&self) -> (r: usize)
        ensures
            r as int == network_rank(*self),
    {
        match self {
            NetworkType::Unet => 0,
            NetworkType::SdClip => 1,
            NetworkType::SdxlClip => 2,
            NetworkType::Transformer => 3,
        }
    }

    fn from_rank(k: usize) -> (n: NetworkType)
        requires
            k < 4,
        ensures
            n == network_at(k as int),
    {
        if k == 0 {
            NetworkType::Unet
        } else if k == 1 {
            NetworkType::SdClip
        } else if k == 2 {
            NetworkType::SdxlClip
        } else {
            NetworkType::Transformer
        }
    }
}

impl ModelType {
    /// Position of this tag in the total order on tags.
    pub fn rank(&self) -> (r: usize)
        ensures
            r as int == rank(*self),
    {
        match self {
            ModelType::SdCheckpoint => 0,
            ModelType::SdxlCheckpoint => 1,
            ModelType::Lora(l) => match l {
                LoraType::LoRA(n) => 2 + n.rank(),
                LoraType::DoRA(n) => 6 + n.rank(),
                LoraType::LoHa(n) => 10 + n.rank(),
                LoraType::LoKr(n) => 14 + n.rank(),
            },
            ModelType::BakedVae => 18,
            ModelType::StandaloneVae => 19,
        }
    }

    /// The tag at position `k` of the total order on tags.
    pub fn from_rank(k: usize) -> (t: ModelType)
        requires
            k < TAG_COUNT,
        ensures
            t == tag_at(k as int),
    {
        if k == 0 {
            ModelType::SdCheckpoint
        } else if k == 1 {
            ModelType::SdxlCheckpoint
        } else if k < 6 {
            ModelType::Lora(LoraType::LoRA(NetworkType::from_rank(k - 2)))
        } else if k < 10 {
            ModelType::Lora(LoraType::DoRA(NetworkType::from_rank(k - 6)))
        } else if k < 14 {
            ModelType::Lora(LoraType::LoHa(NetworkType::from_rank(k - 10)))
        } else if k < 18 {
            ModelType::Lora(LoraType::LoKr(NetworkType::from_rank(k - 14)))
        } else if k == 18 {
            ModelType::BakedVae
        } else {
            ModelType::StandaloneVae
        }
    }
}

/// Whether one of the first `i` tensors is given tag `t` by the rules.
pub open spec fn tagged_within(tensors: Seq<(String, Vec<usize>)>, i: int, t: ModelType) -> bool {
    exists|j: int| 0 <= j < i && tensor_tag((#[trigger] tensors[j]).0@) == Some(t)
}

/// The tags that the rules give to at least one tensor.
pub open spec fn raw_tags(tensors: Seq<(String, Vec<usize>)>) -> Set<ModelType> {
    Set::new(|t: ModelType| tagged_within(tensors, tensors.len() as int, t))
}

/// A plain low-rank tag is superseded by the weighted low-rank tag of the same target.
pub open spec fn superseded(tags: Set<ModelType>, t: ModelType) -> bool {
    match t {
        ModelType::Lora(LoraType::LoRA(n)) => tags.contains(ModelType::Lora(LoraType::DoRA(n))),
        _ => false,
    }
}

/// A tag set with every superseded tag removed.
pub open spec fn resolve(tags: Set<ModelType>) -> Set<ModelType> {
    tags.filter(|t: ModelType| !superseded(tags, t))
}

/// The tags that classification reports for a tensor list.
pub open spec fn classified(tensors: Seq<(String, Vec<usize>)>) -> Set<ModelType> {
    resolve(raw_tags(tensors))
}

/// Strictly increasing in the total order on tags, hence free of duplicates.
pub open spec fn rank_sorted(s: Seq<ModelType>) -> bool {
    forall|i: int, j: int| 0 <= i < j < s.len() ==> rank(#[trigger] s[i]) < rank(#[trigger] s[j])
}

proof fn lemma_tagged_step(tensors: Seq<(String, Vec<usize>)>, i: int, t: ModelType)
    requires
        0 <= i < tensors.len(),
    ensures
        tagged_within(tensors, i + 1, t) == (tagged_within(tensors, i, t) || tensor_tag(
            tensors[i].0@,
        ) == Some(t)),
{
    if tagged_within(tensors, i + 1, t) && tensor_tag(tensors[i].0@) != Some(t) {
        let j = choose|j: int| 0 <= j < i + 1 && tensor_tag((#[trigger] tensors[j]).0@) == Some(t);
        assert(j < i);
    }
}

/// Classifies a tensor list: every tag that some tensor's name is given by the
/// rules, less the plain low-rank tags superseded by a weighted low-rank tag of
/// the same target, in increasing tag order.
pub fn classify(tensors: &Vec<(String, Vec<usize>)>) -> (r: Vec<ModelType>)
    ensures
        r@.to_set() == classified(tensors@),
        rank_sorted(r@),
{
    let mut seen: Vec<bool> = vec![false; TAG_COUNT];
    let mut i: usize = 0;
    while i < tensors.len()
        invariant
            seen@.len() == TAG_COUNT,
            i <= tensors@.len(),
            forall|q: int|
                0 <= q < TAG_COUNT ==> #[trigger] seen@[q] == tagged_within(
                    tensors@,
                    i as int,
                    tag_at(q),
                ),
        decreases tensors@.len() - i,
    {
        let entry = &tensors[i];
        let tag = ModelType::from_tensor_name(entry.0.as_str(), entry.1.as_slice());
        if let Some(t) = tag {
            let q = t.rank();
            proof {
                lemma_rank_bijective(t);
            }
            seen.set(q, true);
        }
        proof {
            assert forall|q: int| 0 <= q < TAG_COUNT implies #[trigger] seen@[q] == tagged_within(
                tensors@,
                i + 1,
                tag_at(q),
            ) by {
                lemma_tagged_step(tensors@, i as int, tag_at(q));
                lemma_tag_at_rank(q);
            }
        }
        i += 1;
    }
    let ghost raw = seen@;
    let mut n: usize = 0;
    while n < 4
        invariant
            seen@.len() == TAG_COUNT,
            raw.len() == TAG_COUNT,
            n <= 4,
            forall|k: int|
                0 <= k < TAG_COUNT ==> #[trigger] raw[k] == tagged_within(
                    tensors@,
                    tensors@.len() as int,
                    tag_at(k),
                ),
            forall|q: int|
                0 <= q < TAG_COUNT ==> #[trigger] seen@[q] == (raw[q] && !(2 <= q < 2 + n
                    && raw[q + 4])),
        decreases 4 - n,
    {
        if seen[6 + n] {
            seen.set(2 + n, false);
        }
        n += 1;
    }
    let mut out: Vec<ModelType> = Vec::new();
    let mut q: usize = 0;
    while q < TAG_COUNT
        invariant
            seen@.len() == TAG_COUNT,
            q <= TAG_COUNT,
            raw.len() == TAG_COUNT,
            forall|k: int|
                0 <= k < TAG_COUNT ==> #[trigger] raw[k] == tagged_within(
                    tensors@,
                    tensors@.len() as int,
                    tag_at(k),
                ),
            forall|k: int|
                0 <= k < TAG_COUNT ==> #[trigger] seen@[k] == (raw[k] && !(2 <= k < 6 && raw[k
                    + 4])),
            rank_sorted(out@),
            forall|k: int| 0 <= k < out@.len() ==> rank(#[trigger] out@[k]) < q,
            forall|t: ModelType|
                out@.contains(t) <==> (rank(t) < q && #[trigger] seen@[rank(t)]),
        decreases TAG_COUNT - q,
    {
        if seen[q] {
            let t = ModelType::from_rank(q);
            proof {
                lemma_tag_at_rank(q as int);
            }
            let ghost before = out@;
            out.push(t);
            proof {
                assert forall|u: ModelType| out@.contains(u) <==> (rank(u) < q + 1
                    && #[trigger] seen@[rank(u)]) by {
                    lemma_rank_bijective(u);
                    if out@.contains(u) && u != t {
                        let k = choose|k: int| 0 <= k < out@.len() && out@[k] == u;
                        assert(before[k] == u);
                    }
                    if u == t {
                        assert(out@[before.len() as int] == t);
                    } else if rank(u) < q && seen@[rank(u)] {
                        let k = choose|k: int| 0 <= k < before.len() && before[k] == u;
                        assert(out@[k] == u);
                    }
                }
            }
        } else {
            proof {
                assert forall|u: ModelType| out@.contains(u) <==> (rank(u) < q + 1
                    && #[trigger] seen@[rank(u)]) by {
                    lemma_rank_bijective(u);
                }
            }
        }
        q += 1;
    }
    proof {
        let tags = raw_tags(tensors@);
        let len = tensors@.len() as int;
        assert forall|t: ModelType| out@.to_set().contains(t) <==> classified(tensors@).contains(
            t,
        ) by {
            lemma_rank_bijective(t);
            let k = rank(t);
            assert(out@.to_set().contains(t) == out@.contains(t));
            assert(seen@[k] == (raw[k] && !(2 <= k < 6 && raw[k + 4])));
            assert(raw[k] == tagged_within(tensors@, len, t));
            assert(tags.contains(t) == tagged_within(tensors@, len, t));
            assert(classified(tensors@).contains(t) == (tags.contains(t) && !superseded(tags, t)));
            match t {
                ModelType::Lora(LoraType::LoRA(m)) => {
                    let d = ModelType::Lora(LoraType::DoRA(m));
                    lemma_rank_bijective(d);
                    assert(k + 4 == rank(d));
                    assert(raw[k + 4] == tagged_within(tensors@, len, d));
                    assert(superseded(tags, t) == tags.contains(d));
                },
                _ => {
                    assert(!superseded(tags, t));
                    assert(!(2 <= k < 6));
                },
            }
        }
        assert(out@.to_set() =~= classified(tensors@));
    }
    out
}


/// A tensor whose name carries the multi-encoder conditioner prefix is given
/// the dual-text-encoder checkpoint tag, whatever follows the prefix.
pub proof fn lemma_conditioner_prefix(name: Seq<char>)
    requires
        "conditioner.embedders.0."@.is_prefix_of(name),
    ensures
        tensor_tag(name) == Some(ModelType::SdxlCheckpoint),
{
}

/// A file whose only tensor carries the multi-encoder conditioner prefix is
/// classified as a dual-text-encoder checkpoint and nothing else: no adapter tag.
pub proof fn lemma_conditioner_only(tensors: Seq<(String, Vec<usize>)>)
    requires
        tensors.len() == 1,
        "conditioner.embedders.0."@.is_prefix_of(tensors[0].0@),
    ensures
        classified(tensors) == set![ModelType::SdxlCheckpoint],
{
    let tags = raw_tags(tensors);
    assert(tagged_within(tensors, 1, ModelType::SdxlCheckpoint));
    assert forall|t: ModelType| tags.contains(t) implies t == ModelType::SdxlCheckpoint by {
        let j = choose|j: int| 0 <= j < 1 && tensor_tag((#[trigger] tensors[j]).0@) == Some(t);
        assert(j == 0);
    }
    assert(!superseded(tags, ModelType::SdxlCheckpoint));
    assert(classified(tensors) =~= set![ModelType::SdxlCheckpoint]);
}

/// Where the rules give both the weighted low-rank tag and the plain low-rank
/// tag of one network target, classification keeps only the weighted one.
pub proof fn lemma_weighted_supersedes_plain(tensors: Seq<(String, Vec<usize>)>, n: NetworkType)
    requires
        raw_tags(tensors).contains(ModelType::Lora(LoraType::DoRA(n))),
        raw_tags(tensors).contains(ModelType::Lora(LoraType::LoRA(n))),
    ensures
        classified(tensors).contains(ModelType::Lora(LoraType::DoRA(n))),
        !classified(tensors).contains(ModelType::Lora(LoraType::LoRA(n))),
{
}

/// No classification reports the plain low-rank tag of a target beside the
/// weighted low-rank tag of the same target.
pub proof fn lemma_no_plain_beside_weighted(tensors: Seq<(String, Vec<usize>)>, n: NetworkType)
    ensures
        classified(tensors).contains(ModelType::Lora(LoraType::DoRA(n))) ==> !classified(
            tensors,
        ).contains(ModelType::Lora(LoraType::LoRA(n))),
{
}

/// Two tag sequences, each strictly increasing in the tag order, that hold the
/// same tags are equal.
pub proof fn lemma_rank_sorted_unique(a: Seq<ModelType>, b: Seq<ModelType>)
    requires
        rank_sorted(a),
        rank_sorted(b),
        a.to_set() == b.to_set(),
    ensures
        a == b,
    decreases a.len(),
{
    if a.len() == 0 {
        if b.len() > 0 {
            assert(b.to_set().contains(b[0]));
        }
        assert(a =~= b);
    } else if b.len() == 0 {
        assert(a.to_set().contains(a[0]));
    } else {
        assert(b.to_set().contains(a[0]));
        assert(a.to_set().contains(b[0]));
        let k = choose|k: int| 0 <= k < b.len() && b[k] == a[0];
        let m = choose|m: int| 0 <= m < a.len() && a[m] == b[0];
        lemma_rank_bijective(a[0]);
        lemma_rank_bijective(b[0]);
        if k > 0 && m > 0 {
            assert(rank(b[0]) < rank(b[k]));
            assert(rank(a[0]) < rank(a[m]));
        }
        assert(a[0] == b[0]);
        let a1 = a.drop_first();
        let b1 = b.drop_first();
        assert forall|x: ModelType| a1.to_set().contains(x) <==> b1.to_set().contains(x) by {
            if a1.to_set().contains(x) {
                let i = choose|i: int| 0 <= i < a1.len() && a1[i] == x;
                assert(a[i + 1] == x);
                assert(rank(a[0]) < rank(a[i + 1]));
                assert(b.to_set().contains(x));
                let j = choose|j: int| 0 <= j < b.len() && b[j] == x;
                assert(j != 0);
                assert(b1[j - 1] == x);
            }
            if b1.to_set().contains(x) {
                let i = choose|i: int| 0 <= i < b1.len() && b1[i] == x;
                assert(b[i + 1] == x);
                assert(rank(b[0]) < rank(b[i + 1]));
                assert(a.to_set().contains(x));
                let j = choose|j: int| 0 <= j < a.len() && a[j] == x;
                assert(j != 0);
                assert(a1[j - 1] == x);
            }
        }
        assert(a1.to_set() =~= b1.to_set());
        lemma_rank_sorted_unique(a1, b1);
        assert(a =~= seq![a[0]] + a1);
        assert(b =~= seq![b[0]] + b1);
    }
}

/// Classifying one tensor list twice gives the same tags in the same order:
/// the contract of `classify` leaves exactly one possible result.
pub proof fn lemma_classification_stable(
    tensors: Seq<(String, Vec<usize>)>,
    first: Seq<ModelType>,
    second: Seq<ModelType>,
)
    requires
        first.to_set() == classified(tensors),
        rank_sorted(first),
        second.to_set() == classified(tensors),
        rank_sorted(second),
    ensures
        first == second,
{
    lemma_rank_sorted_unique(first, second);
}

pub open spec fn network_label(n: NetworkType) -> Seq<char> {
    match n {
        NetworkType::Unet => "UNet"@,
        NetworkType::SdClip => "SD Clip"@,
        NetworkType::SdxlClip => "SDXL Clip"@,
        NetworkType::Transformer => "Flux Transformer"@,
    }
}

pub open spec fn lora_label(l: LoraType) -> Seq<char> {
    match l {
        LoraType::LoRA(n) => network_label(n) + " LoRA"@,
        LoraType::DoRA(n) => network_label(n) + " DoRA"@,
        LoraType::LoHa(n) => network_label(n) + " LoHa"@,
        LoraType::LoKr(n) => network_label(n) + " LoKr"@,
    }
}

pub open spec fn model_label(t: ModelType) -> Seq<char> {
    match t {
        ModelType::SdCheckpoint => "SD Checkpoint"@,
        ModelType::SdxlCheckpoint => "SDXL Checkpoint"@,
        ModelType::Lora(l) => lora_label(l),
        ModelType::BakedVae => "Baked-in VAE"@,
        ModelType::StandaloneVae => "Standalone VAE"@,
    }
}

impl NetworkType {
    /// The name shown to users.
    pub fn label(&self) -> (r: String)
        ensures
            r@ == network_label(*self),
    {
        match self {
            NetworkType::Unet => String::from_str("UNet"),
            NetworkType::SdClip => String::from_str("SD Clip"),
            NetworkType::SdxlClip => String::from_str("SDXL Clip"),
            NetworkType::Transformer => String::from_str("Flux Transformer"),
        }
    }
}

impl LoraType {
    /// The name shown to users: the network target, then the technique.
    pub fn label(&self) -> (r: String)
        ensures
            r@ == lora_label(*self),
    {
        match self {
            LoraType::LoRA(n) => n.label().concat(" LoRA"),
            LoraType::DoRA(n) => n.label().concat(" DoRA"),
            LoraType::LoHa(n) => n.label().concat(" LoHa"),
            LoraType::LoKr(n) => n.label().concat(" LoKr"),
        }
    }
}

impl ModelType {
    /// The name shown to users.
    pub fn label(&self) -> (r: String)
        ensures
            r@ == model_label(*self),
    {
        match self {
            ModelType::SdCheckpoint => String::from_str("SD Checkpoint"),
            ModelType::SdxlCheckpoint => String::from_str("SDXL Checkpoint"),
            ModelType::Lora(l) => l.label(),
            ModelType::BakedVae => String::from_str("Baked-in VAE"),
            ModelType::StandaloneVae => String::from_str("Standalone VAE"),
        }
    }
}

} // verus!
