//! Data fusion engine: pairwise correlation scoring, transitive grouping,
//! strategy-based confidence fusion, and fusion-quality assessment.
//!
//! Geographic distances are consumed as a capability: callers that want
//! geographic evidence supply the pairwise great-circle distance in
//! millimetres (the geospatial collaborator is outside this crate, see the
//! crate documentation), and the scorer's contract is exact in terms of
//! the supplied value.

use vstd::prelude::*;

use crate::models::{EntityRelationship, EntityType, IntelEntity};
use crate::numeric::{decay_weight, floor_sqrt, isqrt, pow_decay};
use crate::text::{fuzzy_similarity, names_equal_ci, spec_fuzzy_sim};
use crate::trusted::{lower_of, now_seconds, random_id};
use crate::CONF_SCALE;

verus! {

/// Largest batch of entities one fusion pass accepts.  Pairwise scoring is
/// quadratic, so admission control is the caller's responsibility; the
/// bound also keeps every weighted sum inside 128-bit arithmetic.
pub const MAX_BATCH: usize = 10_000;

/// Fixed-point confidence awarded to an exact (case-insensitive) name match.
pub const NAME_MATCH_CONF: u64 = 950_000;

/// Fixed-point bonus for matching entity types.
pub const TYPE_MATCH_CONF: u64 = 200_000;

/// Strict lower bound a fuzzy name similarity must exceed to count.
pub const FUZZY_THRESHOLD: u64 = 800_000;

/// Geographic evidence fires below this distance (1 km in millimetres).
pub const GEO_RANGE_MM: u64 = 1_000_000;

/// Temporal evidence fires below this creation-time difference (seconds).
pub const TEMPORAL_RANGE_S: u64 = 3600;

/// Pairs at or above this confidence become edges of the grouping graph;
/// the same constant is the strict classification bound for related
/// entities.
pub const CORRELATION_THRESHOLD: u64 = 700_000;

/// Strict classification bound for same-entity matches.
pub const SAME_ENTITY_THRESHOLD: u64 = 900_000;

#[derive(Debug, Clone, Copy, PartialEq, Eq, Structural)]
pub enum FusionStrategy {
    /// Take highest confidence value
    HighestConfidence,
    /// Average all confidence values
    AverageConfidence,
    /// Weighted average based on source reliability
    WeightedAverage,
    /// Bayesian fusion; no distinct combination rule is defined for it, so
    /// it deliberately falls back to averaging
    BayesianFusion,
    /// Temporal decay fusion (newer data weighted more)
    TemporalDecay,
}

#[derive(Debug, Clone, Copy, PartialEq, Eq, Structural)]
pub enum CorrelationType {
    /// Exact same entity from different sources
    SameEntity,
    /// Related but different entities
    RelatedEntity,
    /// Geographically close
    SpatialProximity,
    /// Close in time
    TemporalProximity,
    /// Connected through network analysis
    NetworkConnection,
    /// Similar meaning/context
    SemanticSimilarity,
}

#[derive(Debug, Clone, Copy, PartialEq, Eq, Structural)]
pub enum EvidenceType {
    ExactMatch,
    FuzzyMatch,
    GeographicProximity,
    TemporalOverlap,
    NetworkPath,
    SemanticSimilarity,
    SourceCitation,
}

/// Rule for fusing data from different sources.
#[derive(Debug, Clone)]
pub struct FusionRule {
    pub id: u128,
    pub name: String,
    pub description: String,
    pub source_types: Vec<String>,
    pub entity_types: Vec<EntityType>,
    pub fusion_strategy: FusionStrategy,
    pub confidence_threshold: u64,
    pub enabled: bool,
    pub created_at: i64,
}

/// Evidence supporting a correlation.
#[derive(Debug, Clone)]
pub struct CorrelationEvidence {
    pub evidence_type: EvidenceType,
    pub value: String,
    pub confidence: u64,
    pub source: String,
}

/// Correlation match between entities.
#[derive(Debug, Clone)]
pub struct CorrelationMatch {
    pub entity1_id: u128,
    pub entity2_id: u128,
    pub correlation_type: CorrelationType,
    pub confidence: u64,
    pub evidence: Vec<CorrelationEvidence>,
    pub created_at: i64,
}

/// Confidence model for a specific source or data type.
#[derive(Debug, Clone)]
pub struct ConfidenceModel {
    pub source_name: String,
    pub base_confidence: u64,
    pub reliability_score: u64,
    /// Per day.
    pub decay_rate: u64,
    pub quality_factors: Vec<(String, u64)>,
}

/// Result of data fusion operation.
#[derive(Debug, Clone)]
pub struct FusionResult {
    pub fused_entity: IntelEntity,
    pub source_entities: Vec<u128>,
    /// Fused confidence minus the template entity's original confidence.
    pub confidence_delta: i64,
    pub fusion_method: FusionStrategy,
    pub quality_score: u64,
    pub created_at: i64,
}

// ------------------------------------------------------------------
// Pairwise scoring: specification
// ------------------------------------------------------------------

/// Whether some element of `ts` has the given character sequence.
pub open spec fn contains_view(ts: Seq<String>, x: Seq<char>) -> bool {
    exists|k: int| 0 <= k < ts.len() && ts[k]@ == x
}

/// Number of distinct tags of `t1` that also occur in `t2`.
pub open spec fn common_tags(t1: Seq<String>, t2: Seq<String>) -> int
    decreases t1.len(),
{
    if t1.len() == 0 {
        0
    } else {
        common_tags(t1.drop_last(), t2) + if contains_view(t2, t1.last()@) && !contains_view(
            t1.drop_last(),
            t1.last()@,
        ) {
            1int
        } else {
            0int
        }
    }
}

/// Name evidence: full confidence for a case-insensitive match, the fuzzy
/// similarity when it strictly exceeds the fuzzy threshold, else nothing.
pub open spec fn name_factor(e1: IntelEntity, e2: IntelEntity) -> Option<int> {
    if lower_of(e1.name@) == lower_of(e2.name@) {
        Some(NAME_MATCH_CONF as int)
    } else if spec_fuzzy_sim(e1.name@, e2.name@) > FUZZY_THRESHOLD {
        Some(spec_fuzzy_sim(e1.name@, e2.name@))
    } else {
        None
    }
}

/// Type evidence: a flat bonus when the entity types agree.
pub open spec fn type_factor(e1: IntelEntity, e2: IntelEntity) -> Option<int> {
    if e1.entity_type == e2.entity_type {
        Some(TYPE_MATCH_CONF as int)
    } else {
        None
    }
}

/// Geographic evidence: both entities carry a location and the supplied
/// great-circle distance is below one kilometre; the confidence falls
/// linearly with the distance.
pub open spec fn geo_factor(e1: IntelEntity, e2: IntelEntity, dist_mm: Option<u64>) -> Option<
    int,
> {
    if e1.location is Some && e2.location is Some && dist_mm is Some && dist_mm->0
        < GEO_RANGE_MM {
        Some(GEO_RANGE_MM - dist_mm->0)
    } else {
        None
    }
}

/// Seconds between the two creation times.
pub open spec fn creation_gap(e1: IntelEntity, e2: IntelEntity) -> int {
    if e1.created_at >= e2.created_at {
        e1.created_at - e2.created_at
    } else {
        e2.created_at - e1.created_at
    }
}

/// Temporal evidence: creation times within one hour; the confidence
/// falls linearly with the gap.
pub open spec fn temporal_factor(e1: IntelEntity, e2: IntelEntity) -> Option<int> {
    let gap = creation_gap(e1, e2);
    if gap < TEMPORAL_RANGE_S {
        Some((TEMPORAL_RANGE_S - gap) * CONF_SCALE / (TEMPORAL_RANGE_S as int))
    } else {
        None
    }
}

/// Tag evidence: the share of common tags relative to the average tag
/// count, capped at full confidence.
pub open spec fn tag_factor(e1: IntelEntity, e2: IntelEntity) -> Option<int> {
    let common = common_tags(e1.tags@, e2.tags@);
    if common > 0 {
        let raw = 2 * common * CONF_SCALE / (e1.tags@.len() + e2.tags@.len()) as int;
        Some(
            if raw > CONF_SCALE {
                CONF_SCALE as int
            } else {
                raw
            },
        )
    } else {
        None
    }
}

/// Add an optional factor to a running (sum, count) pair.
pub open spec fn acc_factor(acc: (int, int), f: Option<int>) -> (int, int) {
    match f {
        Some(v) => (acc.0 + v, acc.1 + 1),
        None => acc,
    }
}

/// Sum and count of all contributing evidence factors for a pair.
pub open spec fn pair_totals(e1: IntelEntity, e2: IntelEntity, dist_mm: Option<u64>) -> (
    int,
    int,
) {
    acc_factor(
        acc_factor(
            acc_factor(
                acc_factor(acc_factor((0, 0), name_factor(e1, e2)), type_factor(e1, e2)),
                geo_factor(e1, e2, dist_mm),
            ),
            temporal_factor(e1, e2),
        ),
        tag_factor(e1, e2),
    )
}

/// Aggregate pair confidence: the mean of all contributing factors, or
/// zero when none contributed.
pub open spec fn pair_confidence(e1: IntelEntity, e2: IntelEntity, dist_mm: Option<u64>) -> int {
    let (total, count) = pair_totals(e1, e2, dist_mm);
    if count > 0 {
        total / count
    } else {
        0
    }
}

/// The evidence entry an optional factor contributes.
pub open spec fn factor_evidence(kind: EvidenceType, f: Option<int>) -> Seq<(EvidenceType, int)> {
    match f {
        Some(v) => seq![(kind, v)],
        None => Seq::empty(),
    }
}

/// Kinds and confidences of the evidence records a pair produces, in
/// order: the name match (exact or fuzzy), geographic proximity,
/// temporal proximity, and tag overlap.  The type bonus leaves no
/// evidence record.
pub open spec fn spec_evidence(e1: IntelEntity, e2: IntelEntity, dist_mm: Option<u64>) -> Seq<
    (EvidenceType, int),
> {
    let name_ev: Seq<(EvidenceType, int)> = if lower_of(e1.name@) == lower_of(e2.name@) {
        seq![(EvidenceType::ExactMatch, NAME_MATCH_CONF as int)]
    } else if spec_fuzzy_sim(e1.name@, e2.name@) > FUZZY_THRESHOLD {
        seq![(EvidenceType::FuzzyMatch, spec_fuzzy_sim(e1.name@, e2.name@))]
    } else {
        Seq::empty()
    };
    name_ev + factor_evidence(EvidenceType::GeographicProximity, geo_factor(e1, e2, dist_mm))
        + factor_evidence(EvidenceType::TemporalOverlap, temporal_factor(e1, e2))
        + factor_evidence(EvidenceType::SemanticSimilarity, tag_factor(e1, e2))
}

/// Classification of an aggregate confidence.
pub open spec fn classify(conf: int) -> CorrelationType {
    if conf > SAME_ENTITY_THRESHOLD {
        CorrelationType::SameEntity
    } else if conf > CORRELATION_THRESHOLD {
        CorrelationType::RelatedEntity
    } else {
        CorrelationType::SemanticSimilarity
    }
}

/// Every contributing factor is a valid confidence, so the aggregate is too.
pub proof fn lemma_pair_confidence_range(e1: IntelEntity, e2: IntelEntity, dist_mm: Option<u64>)
    ensures
        0 <= pair_confidence(e1, e2, dist_mm) <= CONF_SCALE,
{
    crate::text::lemma_fuzzy_sim_range(e1.name@, e2.name@);
    let gap = creation_gap(e1, e2);
    if gap < TEMPORAL_RANGE_S {
        assert(0 <= (TEMPORAL_RANGE_S - gap) * CONF_SCALE / (TEMPORAL_RANGE_S as int)
            <= CONF_SCALE) by (nonlinear_arith)
            requires
                0 <= gap < TEMPORAL_RANGE_S,
        ;
    }
    let (total, count) = pair_totals(e1, e2, dist_mm);
    assert(0 <= total <= count * CONF_SCALE);
    if count > 0 {
        assert(0 <= total / count <= CONF_SCALE) by (nonlinear_arith)
            requires
                count > 0,
                0 <= total <= count * CONF_SCALE,
        ;
    }
}

// ------------------------------------------------------------------
// Pairwise scoring: executable code
// ------------------------------------------------------------------

/// Whether one of the first `upto` strings of `v` equals `x`.
fn contains_str_upto(v: &Vec<String>, upto: usize, x: &String) -> (r: bool)
    requires
        upto <= v@.len(),
    ensures
        r == contains_view(v@.take(upto as int), x@),
{
    let mut k: usize = 0;
    while k < upto
        invariant
            k <= upto <= v@.len(),
            forall|t: int| 0 <= t < k ==> v@[t]@ != x@,
        decreases upto - k,
    {
        if v[k].eq(x) {
            assert(v@.take(upto as int)[k as int]@ == x@);
            return true;
        }
        k += 1;
    }
    assert(forall|t: int| 0 <= t < upto ==> v@.take(upto as int)[t] == v@[t]);
    false
}

/// Count the distinct tags of `t1` that also occur in `t2`.
fn count_common_tags(t1: &Vec<String>, t2: &Vec<String>) -> (c: usize)
    ensures
        c == common_tags(t1@, t2@),
        c <= t1@.len(),
{
    let mut c: usize = 0;
    let n = t1.len();
    for i in 0..n
        invariant
            n == t1@.len(),
            c == common_tags(t1@.take(i as int), t2@),
            c <= i,
    {
        let in_t2 = contains_str_upto(t2, t2.len(), &t1[i]);
        let seen = contains_str_upto(t1, i, &t1[i]);
        proof {
            assert(t2@.take(t2@.len() as int) =~= t2@);
            let pre = t1@.take(i + 1);
            assert(pre.drop_last() =~= t1@.take(i as int));
            assert(pre.last() == t1@[i as int]);
        }
        if in_t2 && !seen {
            c += 1;
        }
    }
    assert(t1@.take(t1@.len() as int) =~= t1@);
    c
}

/// Decimal representation of a number, for human-readable evidence notes.
fn decimal_string(n: u64) -> (s: String)
    ensures
        s@.len() >= 1,
{
    let mut rest = n;
    let mut digits: Vec<u64> = Vec::new();
    loop
        invariant_except_break
            true,
        ensures
            digits@.len() >= 1,
        decreases rest,
    {
        digits.push(rest % 10);
        rest = rest / 10;
        if rest == 0 {
            break ;
        }
    }
    let mut s = String::new();
    let mut k = digits.len();
    while k > 0
        invariant
            k <= digits@.len(),
            s@.len() >= digits@.len() - k,
        decreases k,
    {
        k -= 1;
        let part: &str = match digits[k] {
            0 => "0",
            1 => "1",
            2 => "2",
            3 => "3",
            4 => "4",
            5 => "5",
            6 => "6",
            7 => "7",
            8 => "8",
            _ => "9",
        };
        proof {
            reveal_strlit("0");
            reveal_strlit("1");
            reveal_strlit("2");
            reveal_strlit("3");
            reveal_strlit("4");
            reveal_strlit("5");
            reveal_strlit("6");
            reveal_strlit("7");
            reveal_strlit("8");
            reveal_strlit("9");
        }
        s.append(part);
    }
    s
}

// ------------------------------------------------------------------
// The engine and its configuration
// ------------------------------------------------------------------

impl Default for DataFusionEngine {
    /// An engine with no rules and no models.
    fn default() -> (engine: DataFusionEngine)
        ensures
            engine.fusion_rules@.len() == 0,
            engine.confidence_models@.len() == 0,
            engine.wf(),
    {
        DataFusionEngine::new()
    }
}

/// Reliability weight that `models` assigns to `source`, scanning from
/// position `i`: the first matching model's reliability score, or the
/// neutral weight `CONF_SCALE` (that is, 1.0) when no model matches.
pub open spec fn weight_from(models: Seq<ConfidenceModel>, source: Seq<char>, i: int) -> int
    decreases models.len() - i,
{
    if i < 0 || i >= models.len() {
        CONF_SCALE as int
    } else if models[i].source_name@ == source {
        models[i].reliability_score as int
    } else {
        weight_from(models, source, i + 1)
    }
}

/// Reliability weight of a source under a model list.
pub open spec fn weight_of(models: Seq<ConfidenceModel>, source: Seq<char>) -> int {
    weight_from(models, source, 0)
}

/// Model source names are pairwise distinct.
pub open spec fn model_names_unique(models: Seq<ConfidenceModel>) -> bool {
    forall|i: int, j: int|
        0 <= i < j < models.len() ==> models[i].source_name@ != models[j].source_name@
}

proof fn lemma_weight_from_update(
    models: Seq<ConfidenceModel>,
    k: int,
    m: ConfidenceModel,
    source: Seq<char>,
    i: int,
)
    requires
        0 <= k < models.len(),
        models[k].source_name@ == m.source_name@,
        model_names_unique(models),
        0 <= i,
    ensures
        weight_from(models.update(k, m), source, i) == if source == m.source_name@ && i <= k {
            m.reliability_score as int
        } else {
            weight_from(models, source, i)
        },
    decreases models.len() - i,
{
    if i < models.len() {
        lemma_weight_from_update(models, k, m, source, i + 1);
    }
}

proof fn lemma_weight_from_push(
    models: Seq<ConfidenceModel>,
    m: ConfidenceModel,
    source: Seq<char>,
    i: int,
)
    requires
        forall|j: int|
            0 <= j < models.len() ==> models[j].source_name@ != m.source_name@,
        0 <= i,
    ensures
        weight_from(models.push(m), source, i) == if source == m.source_name@ && i
            <= models.len() {
            m.reliability_score as int
        } else {
            weight_from(models, source, i)
        },
    decreases models.len() + 1 - i,
{
    if i <= models.len() {
        lemma_weight_from_push(models, m, source, i + 1);
    }
}

/// Data fusion engine for correlating intelligence from multiple sources.
#[derive(Debug)]
pub struct DataFusionEngine {
    pub fusion_rules: Vec<FusionRule>,
    pub confidence_models: Vec<ConfidenceModel>,
}

impl DataFusionEngine {
    /// Configured model names are unique, mirroring a map keyed by source.
    pub open spec fn wf(&self) -> bool {
        model_names_unique(self.confidence_models@)
    }

    /// Create a new data fusion engine with no rules and no models.
    pub fn new() -> (engine: DataFusionEngine)
        ensures
            engine.fusion_rules@.len() == 0,
            engine.confidence_models@.len() == 0,
            engine.wf(),
    {
        DataFusionEngine { fusion_rules: Vec::new(), confidence_models: Vec::new() }
    }

    /// Append a fusion rule; rules are scanned in insertion order.
    pub fn add_fusion_rule(&mut self, rule: FusionRule)
        ensures
            final(self).fusion_rules@ == old(self).fusion_rules@.push(rule),
            final(self).confidence_models == old(self).confidence_models,
    {
        self.fusion_rules.push(rule);
    }

    /// Register or replace the confidence model for a source: afterwards
    /// that source weighs as the model says, and no other source's weight
    /// changes.
    pub fn add_confidence_model(&mut self, model: ConfidenceModel)
        requires
            old(self).wf(),
        ensures
            final(self).wf(),
            final(self).fusion_rules == old(self).fusion_rules,
            weight_of(final(self).confidence_models@, model.source_name@)
                == model.reliability_score,
            forall|s: Seq<char>|
                s != model.source_name@ ==> #[trigger] weight_of(
                    final(self).confidence_models@,
                    s,
                ) == weight_of(old(self).confidence_models@, s),
    {
        let n = self.confidence_models.len();
        let mut k: usize = 0;
        while k < n
            invariant
                n == self.confidence_models@.len(),
                k <= n,
                forall|j: int|
                    0 <= j < k ==> self.confidence_models@[j].source_name@
                        != model.source_name@,
                *self == *old(self),
                old(self).wf(),
            decreases n - k,
        {
            if self.confidence_models[k].source_name.eq(&model.source_name) {
                let ghost pre = self.confidence_models@;
                let ghost kk = k as int;
                self.confidence_models[k] = model;
                proof {
                    assert(self.confidence_models@ == pre.update(kk, model));
                    assert(model_names_unique(self.confidence_models@)) by {
                        assert forall|i: int, j: int|
                            0 <= i < j < self.confidence_models@.len() implies self
                            .confidence_models@[i].source_name@
                            != self.confidence_models@[j].source_name@ by {
                            assert(pre[i].source_name@ != pre[j].source_name@);
                        }
                    }
                    assert forall|s: Seq<char>| #[trigger]
                        weight_of(self.confidence_models@, s) == (if s == model.source_name@ {
                            model.reliability_score as int
                        } else {
                            weight_of(pre, s)
                        }) by {
                        lemma_weight_from_update(pre, kk, model, s, 0);
                    }
                }
                return ;
            }
            k += 1;
        }
        let ghost pre = self.confidence_models@;
        self.confidence_models.push(model);
        proof {
            assert(model_names_unique(self.confidence_models@)) by {
                assert forall|i: int, j: int|
                    0 <= i < j < self.confidence_models@.len() implies self
                    .confidence_models@[i].source_name@
                    != self.confidence_models@[j].source_name@ by {
                    if j < pre.len() {
                        assert(pre[i].source_name@ != pre[j].source_name@);
                    }
                }
            }
            assert forall|s: Seq<char>| #[trigger]
                weight_of(self.confidence_models@, s) == (if s == model.source_name@ {
                    model.reliability_score as int
                } else {
                    weight_of(pre, s)
                }) by {
                lemma_weight_from_push(pre, model, s, 0);
            }
        }
    }

    /// Reliability weight configured for a source, defaulting to 1.0.
    pub fn get_source_weight(&self, source: &String) -> (w: u64)
        ensures
            w == weight_of(self.confidence_models@, source@),
    {
        let n = self.confidence_models.len();
        let mut k: usize = 0;
        while k < n
            invariant
                n == self.confidence_models@.len(),
                k <= n,
                weight_of(self.confidence_models@, source@) == weight_from(
                    self.confidence_models@,
                    source@,
                    k as int,
                ),
            decreases n - k,
        {
            if self.confidence_models[k].source_name.eq(source) {
                return self.confidence_models[k].reliability_score;
            }
            k += 1;
        }
        CONF_SCALE
    }

    /// First enabled rule whose entity types intersect the group's types,
    /// as a fresh value; falls back to the built-in default rule.
    pub fn find_applicable_fusion_rule(&self, group: &Vec<IntelEntity>) -> (rule: FusionRule)
        ensures
            rule.fusion_strategy == selected_strategy(self.fusion_rules@, group@),
            rule.enabled,
    {
        let n = self.fusion_rules.len();
        let mut k: usize = 0;
        while k < n
            invariant
                n == self.fusion_rules@.len(),
                k <= n,
                selected_index(self.fusion_rules@, group@, 0) == selected_index(
                    self.fusion_rules@,
                    group@,
                    k as int,
                ),
            decreases n - k,
        {
            if self.fusion_rules[k].enabled && rule_matches_group(&self.fusion_rules[k], group) {
                let r = &self.fusion_rules[k];
                return FusionRule {
                    id: r.id,
                    name: r.name.clone(),
                    description: r.description.clone(),
                    source_types: clone_strings(&r.source_types),
                    entity_types: clone_entity_types(&r.entity_types),
                    fusion_strategy: r.fusion_strategy,
                    confidence_threshold: r.confidence_threshold,
                    enabled: r.enabled,
                    created_at: r.created_at,
                };
            }
            k += 1;
        }
        default_fusion_rule()
    }

    /// Score how strongly two entities appear to describe the same
    /// real-world object.  `geo_distance_mm` is the great-circle distance
    /// between their locations when both carry one, supplied by the
    /// caller's geospatial collaborator; `now` stamps the result.
    #[verifier::rlimit(100)]
    pub fn calculate_entity_correlation(
        &self,
        entity1: &IntelEntity,
        entity2: &IntelEntity,
        geo_distance_mm: Option<u64>,
        now: i64,
    ) -> (m: CorrelationMatch)
        ensures
            m.entity1_id == entity1.id,
            m.entity2_id == entity2.id,
            m.confidence == pair_confidence(*entity1, *entity2, geo_distance_mm),
            m.confidence <= CONF_SCALE,
            m.correlation_type == classify(m.confidence as int),
            m.created_at == now,
            m.evidence@.map_values(|ev: CorrelationEvidence| (ev.evidence_type, ev.confidence as int))
                == spec_evidence(*entity1, *entity2, geo_distance_mm),
    {
        proof {
            lemma_pair_confidence_range(*entity1, *entity2, geo_distance_mm);
        }
        let mut evidence: Vec<CorrelationEvidence> = Vec::new();
        let mut total: u64 = 0;
        let mut count: u64 = 0;

        // Name evidence: exact case-insensitive match, else fuzzy match.
        if names_equal_ci(entity1.name.as_str(), entity2.name.as_str()) {
            evidence.push(
                CorrelationEvidence {
                    evidence_type: EvidenceType::ExactMatch,
                    value: entity1.name.clone(),
                    confidence: NAME_MATCH_CONF,
                    source: "name_comparison".to_owned(),
                },
            );
            total += NAME_MATCH_CONF;
            count += 1;
        } else {
            let sim = fuzzy_similarity(entity1.name.as_str(), entity2.name.as_str());
            if sim > FUZZY_THRESHOLD {
                let mut note = decimal_string(sim / 10_000);
                note.append("% similarity");
                evidence.push(
                    CorrelationEvidence {
                        evidence_type: EvidenceType::FuzzyMatch,
                        value: note,
                        confidence: sim,
                        source: "fuzzy_match".to_owned(),
                    },
                );
                total += sim;
                count += 1;
            }
        }
        assert((total as int, count as int) == acc_factor(
            (0, 0),
            name_factor(*entity1, *entity2),
        ));

        // Entity type compatibility: a flat bonus without evidence record.
        if entity1.entity_type == entity2.entity_type {
            total += TYPE_MATCH_CONF;
            count += 1;
        }

        // Geographic proximity, when the caller supplied a distance.
        if entity1.location.is_some() && entity2.location.is_some() {
            if let Some(dist) = geo_distance_mm {
                if dist < GEO_RANGE_MM {
                    let geo_conf = GEO_RANGE_MM - dist;
                    let mut note = decimal_string(dist / 1000);
                    note.append("m apart");
                    evidence.push(
                        CorrelationEvidence {
                            evidence_type: EvidenceType::GeographicProximity,
                            value: note,
                            confidence: geo_conf,
                            source: "geographic_analysis".to_owned(),
                        },
                    );
                    total += geo_conf;
                    count += 1;
                }
            }
        }

        // Temporal proximity of the creation times.
        let gap: u64 = if entity1.created_at >= entity2.created_at {
            ((entity1.created_at as i128) - (entity2.created_at as i128)) as u64
        } else {
            ((entity2.created_at as i128) - (entity1.created_at as i128)) as u64
        };
        assert(gap == creation_gap(*entity1, *entity2));
        if gap < TEMPORAL_RANGE_S {
            let temporal_conf = (TEMPORAL_RANGE_S - gap) * CONF_SCALE / TEMPORAL_RANGE_S;
            assert(temporal_conf as int == (TEMPORAL_RANGE_S as int - gap) * (CONF_SCALE as int)
                / (TEMPORAL_RANGE_S as int));
            assert(temporal_conf <= CONF_SCALE) by (nonlinear_arith)
                requires
                    temporal_conf as int == (TEMPORAL_RANGE_S as int - gap) * (CONF_SCALE as int)
                        / (TEMPORAL_RANGE_S as int),
                    gap < TEMPORAL_RANGE_S,
            ;
            let mut note = decimal_string(gap);
            note.append(" seconds apart");
            evidence.push(
                CorrelationEvidence {
                    evidence_type: EvidenceType::TemporalOverlap,
                    value: note,
                    confidence: temporal_conf,
                    source: "temporal_analysis".to_owned(),
                },
            );
            total += temporal_conf;
            count += 1;
        }

        // Common tags.
        let common = count_common_tags(&entity1.tags, &entity2.tags);
        if common > 0 {
            let len_sum: u128 = (entity1.tags.len() as u128) + (entity2.tags.len() as u128);
            let raw: u128 = 2 * (common as u128) * (CONF_SCALE as u128) / len_sum;
            let tag_conf: u64 = if raw > (CONF_SCALE as u128) {
                CONF_SCALE
            } else {
                raw as u64
            };
            let mut note = decimal_string(common as u64);
            note.append(" common tags");
            evidence.push(
                CorrelationEvidence {
                    evidence_type: EvidenceType::SemanticSimilarity,
                    value: note,
                    confidence: tag_conf,
                    source: "tag_analysis".to_owned(),
                },
            );
            total += tag_conf;
            count += 1;
        }

        assert((total as int, count as int) == pair_totals(
            *entity1,
            *entity2,
            geo_distance_mm,
        ));
        proof {
            assert(evidence@.map_values(
                |ev: CorrelationEvidence| (ev.evidence_type, ev.confidence as int),
            ) =~= spec_evidence(*entity1, *entity2, geo_distance_mm));
        }
        let final_confidence: u64 = if count > 0 {
            total / count
        } else {
            0
        };
        assert(final_confidence == pair_confidence(*entity1, *entity2, geo_distance_mm));

        let correlation_type = if final_confidence > SAME_ENTITY_THRESHOLD {
            CorrelationType::SameEntity
        } else if final_confidence > CORRELATION_THRESHOLD {
            CorrelationType::RelatedEntity
        } else {
            CorrelationType::SemanticSimilarity
        };

        CorrelationMatch {
            entity1_id: entity1.id,
            entity2_id: entity2.id,
            correlation_type,
            confidence: final_confidence,
            evidence,
            created_at: now,
        }
    }
}

// ------------------------------------------------------------------
// Rule selection
// ------------------------------------------------------------------

/// Whether a rule's entity types intersect the group's entity types.
pub open spec fn rule_matches(rule: FusionRule, s: Seq<IntelEntity>) -> bool {
    exists|i: int, j: int|
        0 <= i < rule.entity_types@.len() && 0 <= j < s.len() && rule.entity_types@[i]
            == s[j].entity_type
}

/// Index of the first enabled, matching rule at or after `i`; -1 if none.
pub open spec fn selected_index(rules: Seq<FusionRule>, s: Seq<IntelEntity>, i: int) -> int
    decreases rules.len() - i,
{
    if i < 0 || i >= rules.len() {
        -1
    } else if rules[i].enabled && rule_matches(rules[i], s) {
        i
    } else {
        selected_index(rules, s, i + 1)
    }
}

/// Strategy the configured rules select for a group: the first enabled,
/// matching rule's strategy, or averaging under the default rule.
pub open spec fn selected_strategy(rules: Seq<FusionRule>, s: Seq<IntelEntity>) -> FusionStrategy {
    let k = selected_index(rules, s, 0);
    if k >= 0 {
        rules[k].fusion_strategy
    } else {
        FusionStrategy::AverageConfidence
    }
}

/// Copy a vector of strings.
pub(crate) fn clone_strings(v: &Vec<String>) -> (r: Vec<String>)
    ensures
        r@ == v@,
{
    let mut r: Vec<String> = Vec::new();
    let n = v.len();
    for k in 0..n
        invariant
            n == v@.len(),
            r@ =~= v@.take(k as int),
    {
        r.push(v[k].clone());
        assert(r@ =~= v@.take(k + 1));
    }
    assert(r@ =~= v@);
    r
}

/// Copy a vector of entity types.
fn clone_entity_types(v: &Vec<EntityType>) -> (r: Vec<EntityType>)
    ensures
        r@ == v@,
{
    let mut r: Vec<EntityType> = Vec::new();
    let n = v.len();
    for k in 0..n
        invariant
            n == v@.len(),
            r@ =~= v@.take(k as int),
    {
        r.push(v[k]);
        assert(r@ =~= v@.take(k + 1));
    }
    assert(r@ =~= v@);
    r
}

/// Whether the rule's entity types intersect the group's.
fn rule_matches_group(rule: &FusionRule, group: &Vec<IntelEntity>) -> (r: bool)
    ensures
        r == rule_matches(*rule, group@),
{
    let nt = rule.entity_types.len();
    let ng = group.len();
    let mut i: usize = 0;
    while i < nt
        invariant
            nt == rule.entity_types@.len(),
            ng == group@.len(),
            i <= nt,
            forall|x: int, y: int|
                0 <= x < i && 0 <= y < ng ==> rule.entity_types@[x] != group@[y].entity_type,
        decreases nt - i,
    {
        let mut j: usize = 0;
        while j < ng
            invariant
                nt == rule.entity_types@.len(),
                ng == group@.len(),
                i < nt,
                j <= ng,
                forall|y: int| 0 <= y < j ==> rule.entity_types@[i as int] != group@[y].entity_type,
            decreases ng - j,
        {
            if rule.entity_types[i] == group[j].entity_type {
                return true;
            }
            j += 1;
        }
        i += 1;
    }
    false
}

/// The built-in default fusion rule: always enabled, matches nothing by
/// type (it is only ever used as a fallback), and averages confidences.
pub fn default_fusion_rule() -> (r: FusionRule)
    ensures
        r.fusion_strategy == FusionStrategy::AverageConfidence,
        r.enabled,
        r.confidence_threshold == CONF_SCALE / 2,
        r.id == 0,
        r.entity_types@.len() == 0,
        r.source_types@.len() == 0,
{
    FusionRule {
        id: 0,
        name: "Default".to_owned(),
        description: "Default fusion rule".to_owned(),
        source_types: Vec::new(),
        entity_types: Vec::new(),
        fusion_strategy: FusionStrategy::AverageConfidence,
        confidence_threshold: CONF_SCALE / 2,
        enabled: true,
        created_at: i64::MIN,
    }
}

// ------------------------------------------------------------------
// Fusion strategies: specification
// ------------------------------------------------------------------

/// Whole days a record created at `created` has aged by `now`; records
/// from the future age zero days.
pub open spec fn age_days(now: int, created: int) -> int {
    if created >= now {
        0
    } else {
        (now - created) / 86400
    }
}

/// Sum of the members' confidences.
pub open spec fn sum_conf(s: Seq<IntelEntity>) -> int
    decreases s.len(),
{
    if s.len() == 0 {
        0
    } else {
        sum_conf(s.drop_last()) + s.last().confidence
    }
}

/// Sum of the members' confidences, each weighted by its source's
/// reliability.
pub open spec fn weighted_conf_sum(s: Seq<IntelEntity>, models: Seq<ConfidenceModel>) -> int
    decreases s.len(),
{
    if s.len() == 0 {
        0
    } else {
        weighted_conf_sum(s.drop_last(), models) + (s.last().confidence as int) * weight_of(
            models,
            s.last().source@,
        )
    }
}

/// Sum of the members' source-reliability weights.
pub open spec fn weight_sum(s: Seq<IntelEntity>, models: Seq<ConfidenceModel>) -> int
    decreases s.len(),
{
    if s.len() == 0 {
        0
    } else {
        weight_sum(s.drop_last(), models) + weight_of(models, s.last().source@)
    }
}

/// Sum of the members' confidences, each weighted by its temporal decay.
pub open spec fn decay_conf_sum(s: Seq<IntelEntity>, now: int) -> int
    decreases s.len(),
{
    if s.len() == 0 {
        0
    } else {
        decay_conf_sum(s.drop_last(), now) + (s.last().confidence as int) * pow_decay(
            age_days(now, s.last().created_at as int),
        )
    }
}

/// Sum of the members' temporal-decay weights.
pub open spec fn decay_weight_sum(s: Seq<IntelEntity>, now: int) -> int
    decreases s.len(),
{
    if s.len() == 0 {
        0
    } else {
        decay_weight_sum(s.drop_last(), now) + pow_decay(age_days(now, s.last().created_at as int))
    }
}

/// Index of the member with the highest confidence; among equals, the
/// earliest in the group's canonical order.
pub open spec fn best_index(s: Seq<IntelEntity>) -> int
    decreases s.len(),
{
    if s.len() <= 1 {
        0
    } else {
        let b = best_index(s.drop_last());
        if s.last().confidence > s[b].confidence {
            s.len() - 1
        } else {
            b
        }
    }
}

pub proof fn lemma_best_index_range(s: Seq<IntelEntity>)
    requires
        s.len() >= 1,
    ensures
        0 <= best_index(s) < s.len(),
    decreases s.len(),
{
    if s.len() > 1 {
        lemma_best_index_range(s.drop_last());
    }
}

/// Fused confidence of a non-empty group under a strategy.  Strategies
/// without a distinct numeric rule (Bayesian fusion among them) fall back
/// to plain averaging; weighted strategies whose total weight is zero
/// keep the template member's confidence.
pub open spec fn spec_fused_confidence(
    s: Seq<IntelEntity>,
    strategy: FusionStrategy,
    models: Seq<ConfidenceModel>,
    now: int,
) -> int {
    match strategy {
        FusionStrategy::HighestConfidence => s[best_index(s)].confidence as int,
        FusionStrategy::AverageConfidence => sum_conf(s) / (s.len() as int),
        FusionStrategy::WeightedAverage => if weight_sum(s, models) > 0 {
            weighted_conf_sum(s, models) / weight_sum(s, models)
        } else {
            s[0].confidence as int
        },
        FusionStrategy::TemporalDecay => if decay_weight_sum(s, now) > 0 {
            decay_conf_sum(s, now) / decay_weight_sum(s, now)
        } else {
            s[0].confidence as int
        },
        FusionStrategy::BayesianFusion => sum_conf(s) / (s.len() as int),
    }
}

/// All members have valid confidences.
pub open spec fn all_wf(s: Seq<IntelEntity>) -> bool {
    forall|k: int| 0 <= k < s.len() ==> #[trigger] s[k].wf()
}

pub proof fn lemma_sum_conf_range(s: Seq<IntelEntity>)
    requires
        all_wf(s),
    ensures
        0 <= sum_conf(s) <= s.len() * CONF_SCALE,
    decreases s.len(),
{
    if s.len() == 0 {
    } else {
        assert(all_wf(s.drop_last())) by {
            assert(forall|k: int|
                0 <= k < s.len() - 1 ==> s.drop_last()[k] == #[trigger] s[k]);
        }
        lemma_sum_conf_range(s.drop_last());
        assert(s.last().wf());
        assert((s.len() - 1) * CONF_SCALE + CONF_SCALE == s.len() * CONF_SCALE) by (nonlinear_arith);
    }
}

pub proof fn lemma_weight_of_range(models: Seq<ConfidenceModel>, source: Seq<char>, i: int)
    ensures
        0 <= weight_from(models, source, i) <= u64::MAX,
    decreases models.len() - i,
{
    if 0 <= i < models.len() {
        lemma_weight_of_range(models, source, i + 1);
    }
}

/// Weighted sums are bracketed: non-negative, at most `CONF_SCALE` times
/// the weight total, and absolutely bounded for overflow reasoning.
pub proof fn lemma_weighted_sums_range(s: Seq<IntelEntity>, models: Seq<ConfidenceModel>)
    requires
        all_wf(s),
    ensures
        0 <= weight_sum(s, models) <= s.len() * (u64::MAX as int),
        0 <= weighted_conf_sum(s, models),
        weighted_conf_sum(s, models) <= (CONF_SCALE as int) * weight_sum(s, models),
    decreases s.len(),
{
    if s.len() == 0 {
    } else {
        assert(all_wf(s.drop_last())) by {
            assert(forall|k: int|
                0 <= k < s.len() - 1 ==> s.drop_last()[k] == #[trigger] s[k]);
        }
        lemma_weighted_sums_range(s.drop_last(), models);
        let w = weight_of(models, s.last().source@);
        let c = s.last().confidence as int;
        lemma_weight_of_range(models, s.last().source@, 0);
        assert(s.last().wf());
        vstd::arithmetic::mul::lemma_mul_nonnegative(c, w);
        vstd::arithmetic::mul::lemma_mul_inequality(c, CONF_SCALE as int, w);
        assert((s.len() - 1) * (u64::MAX as int) + u64::MAX == s.len() * (u64::MAX as int))
            by (nonlinear_arith);
        assert((CONF_SCALE as int) * weight_sum(s.drop_last(), models) + (CONF_SCALE as int) * w
            == (CONF_SCALE as int) * weight_sum(s, models)) by (nonlinear_arith)
            requires
                weight_sum(s, models) == weight_sum(s.drop_last(), models) + w,
        ;
        assert(c * w <= (CONF_SCALE as int) * w) by {
            vstd::arithmetic::mul::lemma_mul_is_commutative(c, w);
            vstd::arithmetic::mul::lemma_mul_is_commutative(CONF_SCALE as int, w);
        }
    }
}

/// Decay-weighted sums are bracketed just like reliability-weighted ones,
/// with the tighter per-member weight bound `CONF_SCALE`.
pub proof fn lemma_decay_sums_range(s: Seq<IntelEntity>, now: int)
    requires
        all_wf(s),
    ensures
        0 <= decay_weight_sum(s, now) <= s.len() * (CONF_SCALE as int),
        0 <= decay_conf_sum(s, now),
        decay_conf_sum(s, now) <= (CONF_SCALE as int) * decay_weight_sum(s, now),
    decreases s.len(),
{
    if s.len() == 0 {
    } else {
        assert(all_wf(s.drop_last())) by {
            assert(forall|k: int|
                0 <= k < s.len() - 1 ==> s.drop_last()[k] == #[trigger] s[k]);
        }
        lemma_decay_sums_range(s.drop_last(), now);
        let w = pow_decay(age_days(now, s.last().created_at as int));
        let c = s.last().confidence as int;
        crate::numeric::lemma_pow_decay_range(age_days(now, s.last().created_at as int));
        assert(s.last().wf());
        vstd::arithmetic::mul::lemma_mul_nonnegative(c, w);
        vstd::arithmetic::mul::lemma_mul_inequality(c, CONF_SCALE as int, w);
        assert((s.len() - 1) * (CONF_SCALE as int) + CONF_SCALE == s.len() * (CONF_SCALE as int))
            by (nonlinear_arith);
        assert((CONF_SCALE as int) * decay_weight_sum(s.drop_last(), now) + (CONF_SCALE as int) * w
            == (CONF_SCALE as int) * decay_weight_sum(s, now)) by (nonlinear_arith)
            requires
                decay_weight_sum(s, now) == decay_weight_sum(s.drop_last(), now) + w,
        ;
        assert(c * w <= (CONF_SCALE as int) * w) by {
            vstd::arithmetic::mul::lemma_mul_is_commutative(c, w);
            vstd::arithmetic::mul::lemma_mul_is_commutative(CONF_SCALE as int, w);
        }
    }
}

/// The fused confidence of a well-formed group is a valid confidence.
pub proof fn lemma_fused_confidence_range(
    s: Seq<IntelEntity>,
    strategy: FusionStrategy,
    models: Seq<ConfidenceModel>,
    now: int,
)
    requires
        all_wf(s),
        s.len() >= 1,
    ensures
        0 <= spec_fused_confidence(s, strategy, models, now) <= CONF_SCALE,
{
    lemma_best_index_range(s);
    assert(s[best_index(s)].wf());
    assert(s[0].wf());
    lemma_sum_conf_range(s);
    assert(0 <= sum_conf(s) / (s.len() as int) <= CONF_SCALE) by (nonlinear_arith)
        requires
            s.len() >= 1,
            0 <= sum_conf(s) <= s.len() * CONF_SCALE,
    ;
    lemma_weighted_sums_range(s, models);
    if weight_sum(s, models) > 0 {
        assert(0 <= weighted_conf_sum(s, models) / weight_sum(s, models) <= CONF_SCALE)
            by (nonlinear_arith)
            requires
                weight_sum(s, models) > 0,
                0 <= weighted_conf_sum(s, models) <= (CONF_SCALE as int) * weight_sum(s, models),
        ;
    }
    lemma_decay_sums_range(s, now);
    if decay_weight_sum(s, now) > 0 {
        assert(0 <= decay_conf_sum(s, now) / decay_weight_sum(s, now) <= CONF_SCALE)
            by (nonlinear_arith)
            requires
                decay_weight_sum(s, now) > 0,
                0 <= decay_conf_sum(s, now) <= (CONF_SCALE as int) * decay_weight_sum(s, now),
        ;
    }
}

// ------------------------------------------------------------------
// Laws of the fusion strategies
// ------------------------------------------------------------------

proof fn lemma_sum_conf_nonneg(s: Seq<IntelEntity>)
    ensures
        sum_conf(s) >= 0,
    decreases s.len(),
{
    if s.len() > 0 {
        lemma_sum_conf_nonneg(s.drop_last());
    }
}

proof fn lemma_weighted_sums_uniform(s: Seq<IntelEntity>, models: Seq<ConfidenceModel>, w: int)
    requires
        forall|k: int| 0 <= k < s.len() ==> weight_of(models, (#[trigger] s[k]).source@) == w,
    ensures
        weighted_conf_sum(s, models) == w * sum_conf(s),
        weight_sum(s, models) == w * s.len(),
    decreases s.len(),
{
    if s.len() == 0 {
        assert(w * 0 == 0) by (nonlinear_arith);
    } else {
        let pre = s.drop_last();
        assert(forall|k: int|
            0 <= k < pre.len() ==> weight_of(models, (#[trigger] pre[k]).source@) == w);
        lemma_weighted_sums_uniform(pre, models, w);
        assert(s[s.len() - 1] == s.last());
        assert(weight_of(models, s.last().source@) == w);
        let c = s.last().confidence as int;
        assert(w * sum_conf(pre) + c * w == w * (sum_conf(pre) + c)) by (nonlinear_arith);
        assert(w * (pre.len() as int) + w == w * (pre.len() + 1)) by (nonlinear_arith);
    }
}

/// When every member's source carries one common positive reliability
/// weight, the weighted average reduces to the plain average: uniform
/// weights cancel.
pub proof fn lemma_weighted_average_uniform(
    s: Seq<IntelEntity>,
    models: Seq<ConfidenceModel>,
    w: int,
    now: int,
)
    requires
        s.len() >= 1,
        w > 0,
        forall|k: int| 0 <= k < s.len() ==> weight_of(models, (#[trigger] s[k]).source@) == w,
    ensures
        spec_fused_confidence(s, FusionStrategy::WeightedAverage, models, now)
            == spec_fused_confidence(s, FusionStrategy::AverageConfidence, models, now),
{
    lemma_weighted_sums_uniform(s, models, w);
    lemma_sum_conf_nonneg(s);
    assert(w * (s.len() as int) > 0) by (nonlinear_arith)
        requires
            w > 0,
            s.len() >= 1,
    ;
    vstd::arithmetic::div_mod::lemma_div_multiples_vanish_quotient(
        w,
        sum_conf(s),
        s.len() as int,
    );
}

proof fn lemma_decay_sums_uniform(s: Seq<IntelEntity>, now: int)
    requires
        forall|k: int| 0 <= k < s.len() ==> age_days(now, (#[trigger] s[k]).created_at as int)
            == 0,
    ensures
        decay_conf_sum(s, now) == (CONF_SCALE as int) * sum_conf(s),
        decay_weight_sum(s, now) == (CONF_SCALE as int) * s.len(),
    decreases s.len(),
{
    let sc = CONF_SCALE as int;
    if s.len() == 0 {
        assert(sc * 0 == 0) by (nonlinear_arith);
    } else {
        let pre = s.drop_last();
        assert(forall|k: int|
            0 <= k < pre.len() ==> age_days(now, (#[trigger] pre[k]).created_at as int) == 0);
        lemma_decay_sums_uniform(pre, now);
        assert(s[s.len() - 1] == s.last());
        assert(age_days(now, s.last().created_at as int) == 0);
        assert(pow_decay(0) == sc);
        let c = s.last().confidence as int;
        assert(sc * sum_conf(pre) + c * sc == sc * (sum_conf(pre) + c)) by (nonlinear_arith);
        assert(sc * (pre.len() as int) + sc == sc * (pre.len() + 1)) by (nonlinear_arith);
    }
}

/// When every member is zero days old, temporal decay gives every member
/// the full weight, and the decayed average reduces to the plain
/// average.
pub proof fn lemma_temporal_decay_fresh(
    s: Seq<IntelEntity>,
    models: Seq<ConfidenceModel>,
    now: int,
)
    requires
        s.len() >= 1,
        forall|k: int| 0 <= k < s.len() ==> age_days(now, (#[trigger] s[k]).created_at as int)
            == 0,
    ensures
        spec_fused_confidence(s, FusionStrategy::TemporalDecay, models, now)
            == spec_fused_confidence(s, FusionStrategy::AverageConfidence, models, now),
{
    lemma_decay_sums_uniform(s, now);
    lemma_sum_conf_nonneg(s);
    assert((CONF_SCALE as int) * (s.len() as int) > 0) by (nonlinear_arith)
        requires
            s.len() >= 1,
    ;
    vstd::arithmetic::div_mod::lemma_div_multiples_vanish_quotient(
        CONF_SCALE as int,
        sum_conf(s),
        s.len() as int,
    );
}

/// Scoring a record against an identical clone of itself, with no tags
/// and no supplied distance: the exact name match, the type match and
/// the zero temporal gap contribute, and their mean lands strictly
/// between the grouping threshold and the same-entity bound.  Such a
/// pair therefore always groups, and is classified as related.
pub proof fn lemma_self_pair_score(e: IntelEntity)
    requires
        e.tags@.len() == 0,
    ensures
        pair_confidence(e, e, Option::None) == 716_666,
        classify(pair_confidence(e, e, Option::None)) == CorrelationType::RelatedEntity,
        pair_confidence(e, e, Option::None) >= CORRELATION_THRESHOLD,
{
    assert(creation_gap(e, e) == 0);
    vstd::arithmetic::div_mod::lemma_div_multiples_vanish(
        CONF_SCALE as int,
        TEMPORAL_RANGE_S as int,
    );
    assert(temporal_factor(e, e) == Some((CONF_SCALE) as int));
    assert(common_tags(e.tags@, e.tags@) == 0);
    assert(pair_totals(e, e, Option::None) == (2_150_000int, 3int));
    vstd::arithmetic::div_mod::lemma_fundamental_div_mod_converse(2_150_000, 3, 716_666, 2);
}

// ------------------------------------------------------------------
// Merging tags and attributes
// ------------------------------------------------------------------

/// Whether some member of the group carries the tag `x`.
pub open spec fn group_has_tag(s: Seq<IntelEntity>, x: Seq<char>) -> bool {
    exists|k: int| 0 <= k < s.len() && contains_view(s[k].tags@, x)
}

/// Tags seen strictly before member `k`, tag `t` in the scan order.
spec fn tag_seen_before(s: Seq<IntelEntity>, k: int, t: int, x: Seq<char>) -> bool {
    (exists|k2: int| 0 <= k2 < k && k2 < s.len() && contains_view(s[k2].tags@, x)) || (0 <= k
        < s.len() && contains_view(s[k].tags@.take(t), x))
}

/// Union of all members' tags, first occurrence first, without
/// duplicates.
fn merge_tags(group: &Vec<IntelEntity>) -> (tags: Vec<String>)
    ensures
        forall|i: int, j: int| 0 <= i < j < tags@.len() ==> tags@[i]@ != tags@[j]@,
        forall|x: Seq<char>| #[trigger] contains_view(tags@, x) <==> group_has_tag(group@, x),
{
    let mut out: Vec<String> = Vec::new();
    let n = group.len();
    for k in 0..n
        invariant
            n == group@.len(),
            forall|i: int, j: int| 0 <= i < j < out@.len() ==> out@[i]@ != out@[j]@,
            forall|x: Seq<char>| #[trigger]
                contains_view(out@, x) <==> tag_seen_before(group@, k as int, 0, x),
    {
        let m = group[k].tags.len();
        for t in 0..m
            invariant
                n == group@.len(),
                k < n,
                m == group@[k as int].tags@.len(),
                forall|i: int, j: int| 0 <= i < j < out@.len() ==> out@[i]@ != out@[j]@,
                forall|x: Seq<char>| #[trigger]
                    contains_view(out@, x) <==> tag_seen_before(group@, k as int, t as int, x),
        {
            let present = contains_str_upto(&out, out.len(), &group[k].tags[t]);
            proof {
                assert(out@.take(out@.len() as int) =~= out@);
            }
            let ghost pre = out@;
            let ghost tagv = group@[k as int].tags@[t as int]@;
            if !present {
                out.push(group[k].tags[t].clone());
                proof {
                    assert(out@.last()@ == tagv);
                    assert forall|x: Seq<char>| #[trigger]
                        contains_view(out@, x) <==> tag_seen_before(
                        group@,
                        k as int,
                        t + 1,
                        x,
                    ) by {
                        if contains_view(out@, x) {
                            let w = choose|w: int| 0 <= w < out@.len() && out@[w]@ == x;
                            if w < pre.len() {
                                assert(contains_view(pre, x));
                            } else {
                                assert(x == tagv);
                                assert(group@[k as int].tags@.take(t + 1)[t as int]@ == tagv);
                            }
                        }
                        if tag_seen_before(group@, k as int, t + 1, x) {
                            if tag_seen_before(group@, k as int, t as int, x) {
                                assert(contains_view(pre, x));
                                let w = choose|w: int| 0 <= w < pre.len() && pre[w]@ == x;
                                assert(out@[w]@ == x);
                            } else {
                                assert(contains_view(
                                    group@[k as int].tags@.take(t + 1),
                                    x,
                                ));
                                let w = choose|w: int|
                                    0 <= w < t + 1 && #[trigger] group@[k as int].tags@.take(
                                        t + 1,
                                    )[w]@ == x;
                                if w < t {
                                    assert(group@[k as int].tags@.take(t as int)[w]@ == x);
                                } else {
                                    assert(x == tagv);
                                    assert(out@.last()@ == x);
                                }
                            }
                        }
                    }
                }
            } else {
                proof {
                    assert forall|x: Seq<char>| #[trigger]
                        contains_view(out@, x) <==> tag_seen_before(
                        group@,
                        k as int,
                        t + 1,
                        x,
                    ) by {
                        if tag_seen_before(group@, k as int, t + 1, x) && !tag_seen_before(
                            group@,
                            k as int,
                            t as int,
                            x,
                        ) {
                            let w = choose|w: int|
                                0 <= w < t + 1 && #[trigger] group@[k as int].tags@.take(
                                    t + 1,
                                )[w]@ == x;
                            if w < t {
                                assert(group@[k as int].tags@.take(t as int)[w]@ == x);
                            } else {
                                assert(x == tagv);
                            }
                        }
                        if tag_seen_before(group@, k as int, t as int, x) {
                            assert(tag_seen_before(group@, k as int, t + 1, x));
                        }
                    }
                }
            }
        }
        proof {
            assert forall|x: Seq<char>|
                tag_seen_before(group@, k as int, m as int, x) <==> tag_seen_before(
                group@,
                k + 1,
                0,
                x,
            ) by {
                assert(group@[k as int].tags@.take(m as int) =~= group@[k as int].tags@);
            }
        }
    }
    proof {
        assert forall|x: Seq<char>|
            tag_seen_before(group@, n as int, 0, x) <==> group_has_tag(group@, x) by {}
    }
    out
}

/// All members' attribute pairs, in canonical member order, members
/// before position `k` only.
pub open spec fn pairs_upto(s: Seq<IntelEntity>, k: int) -> Seq<(String, String)>
    decreases k,
{
    if k <= 0 {
        Seq::empty()
    } else {
        pairs_upto(s, k - 1) + s[k - 1].attributes@
    }
}

/// Value of the first pair carrying `key`, scanning from position `i`.
pub open spec fn first_key_from(
    ps: Seq<(String, String)>,
    key: Seq<char>,
    i: int,
) -> Option<Seq<char>>
    decreases ps.len() - i,
{
    if i < 0 || i >= ps.len() {
        None
    } else if ps[i].0@ == key {
        Some(ps[i].1@)
    } else {
        first_key_from(ps, key, i + 1)
    }
}

/// Value the merged record gives a key: the first occurrence wins.
pub open spec fn first_with_key(ps: Seq<(String, String)>, key: Seq<char>) -> Option<Seq<char>> {
    first_key_from(ps, key, 0)
}

proof fn lemma_first_key_push(ps: Seq<(String, String)>, p: (String, String), key: Seq<char>, i: int)
    requires
        0 <= i <= ps.len(),
    ensures
        first_key_from(ps.push(p), key, i) == if first_key_from(ps, key, i) is Some {
            first_key_from(ps, key, i)
        } else if p.0@ == key {
            Some(p.1@)
        } else {
            None
        },
    decreases ps.len() + 1 - i,
{
    if i < ps.len() {
        assert(ps.push(p)[i] == ps[i]);
        lemma_first_key_push(ps, p, key, i + 1);
    } else if i == ps.len() {
        assert(ps.push(p)[i] == p);
        assert(first_key_from(ps, key, i) is None);
        assert(first_key_from(ps.push(p), key, i + 1) is None);
    }
}

proof fn lemma_first_key_none(ps: Seq<(String, String)>, key: Seq<char>, i: int)
    requires
        0 <= i,
    ensures
        (first_key_from(ps, key, i) is None) <==> (forall|j: int|
            i <= j < ps.len() ==> ps[j].0@ != key),
    decreases ps.len() - i,
{
    if i < ps.len() {
        lemma_first_key_none(ps, key, i + 1);
    }
}

/// Whether any pair of `v` carries `key`.
fn has_key(v: &Vec<(String, String)>, key: &String) -> (r: bool)
    ensures
        r == (first_with_key(v@, key@) is Some),
{
    proof {
        lemma_first_key_none(v@, key@, 0);
    }
    let n = v.len();
    let mut j: usize = 0;
    while j < n
        invariant
            n == v@.len(),
            j <= n,
            forall|t: int| 0 <= t < j ==> v@[t].0@ != key@,
        decreases n - j,
    {
        if v[j].0.eq(key) {
            proof {
                lemma_first_key_none(v@, key@, 0);
            }
            return true;
        }
        j += 1;
    }
    false
}

/// Key-wise union of all members' attributes; on collision the
/// canonically first member's value wins.
fn merge_attributes(group: &Vec<IntelEntity>) -> (attrs: Vec<(String, String)>)
    ensures
        crate::models::attrs_keys_unique(attrs@),
        forall|key: Seq<char>| #[trigger]
            first_with_key(attrs@, key) == first_with_key(
                pairs_upto(group@, group@.len() as int),
                key,
            ),
{
    let n = group.len();
    // Materialize the concatenation of all members' attribute lists.
    let mut all: Vec<(String, String)> = Vec::new();
    for k in 0..n
        invariant
            n == group@.len(),
            all@ == pairs_upto(group@, k as int),
    {
        let m = group[k].attributes.len();
        for t in 0..m
            invariant
                n == group@.len(),
                k < n,
                m == group@[k as int].attributes@.len(),
                all@ =~= pairs_upto(group@, k as int) + group@[k as int].attributes@.take(
                    t as int,
                ),
        {
            let p = &group[k].attributes[t];
            all.push((p.0.clone(), p.1.clone()));
            proof {
                assert(all@ =~= pairs_upto(group@, k as int)
                    + group@[k as int].attributes@.take(t + 1));
            }
        }
        proof {
            assert(group@[k as int].attributes@.take(
                group@[k as int].attributes@.len() as int,
            ) =~= group@[k as int].attributes@);
            assert(all@ =~= pairs_upto(group@, k + 1));
        }
    }
    // Keep the first pair of every key.
    let mut out: Vec<(String, String)> = Vec::new();
    let total = all.len();
    for i in 0..total
        invariant
            total == all@.len(),
            crate::models::attrs_keys_unique(out@),
            forall|key: Seq<char>| #[trigger]
                first_with_key(out@, key) == first_with_key(all@.take(i as int), key),
    {
        let taken = has_key(&out, &all[i].0);
        let ghost pre = out@;
        if !taken {
            out.push((all[i].0.clone(), all[i].1.clone()));
            proof {
                assert(out@.last().0 == all@[i as int].0);
                assert(out@.last().1 == all@[i as int].1);
                lemma_first_key_none(pre, all@[i as int].0@, 0);
                assert(crate::models::attrs_keys_unique(out@)) by {
                    assert forall|x: int, y: int|
                        0 <= x < y < out@.len() implies out@[x].0@ != out@[y].0@ by {
                        if y < pre.len() {
                            assert(pre[x].0@ != pre[y].0@);
                        } else {
                            assert(out@[y].0@ == all@[i as int].0@);
                        }
                    }
                }
            }
        }
        proof {
            assert(all@.take(i + 1) =~= all@.take(i as int).push(all@[i as int]));
            assert forall|key: Seq<char>| #[trigger]
                first_with_key(out@, key) == first_with_key(all@.take(i + 1), key) by {
                assert(first_with_key(pre, key) == first_with_key(all@.take(i as int), key));
                lemma_first_key_push(all@.take(i as int), all@[i as int], key, 0);
                if !taken {
                    let q = out@.last();
                    assert(out@ == pre.push(q));
                    assert(q.0@ == all@[i as int].0@ && q.1@ == all@[i as int].1@);
                    assert(first_with_key(pre, all@[i as int].0@) is None);
                    lemma_first_key_push(pre, q, key, 0);
                } else {
                    assert(out@ == pre);
                    assert(first_with_key(pre, all@[i as int].0@) is Some);
                }
            }
        }
    }
    proof {
        assert(all@.take(all@.len() as int) =~= all@);
    }
    out
}

// ------------------------------------------------------------------
// Quality scoring
// ------------------------------------------------------------------

/// Number of distinct sources among the first `k` members.
pub open spec fn distinct_sources_upto(s: Seq<IntelEntity>, k: int) -> int
    decreases k,
{
    if k <= 0 {
        0
    } else {
        distinct_sources_upto(s, k - 1) + if exists|j: int|
            0 <= j < k - 1 && #[trigger] s[j].source@ == s[k - 1].source@ {
            0int
        } else {
            1int
        }
    }
}

/// Sum of the squared deviations of the first `k` confidences from `mean`.
pub open spec fn sq_dev_sum(s: Seq<IntelEntity>, mean: int, k: int) -> int
    decreases k,
{
    if k <= 0 {
        0
    } else {
        sq_dev_sum(s, mean, k - 1) + (s[k - 1].confidence - mean) * (s[k - 1].confidence - mean)
    }
}

/// Sum of the ages in days of the first `k` members.
pub open spec fn age_sum_upto(s: Seq<IntelEntity>, now: int, k: int) -> int
    decreases k,
{
    if k <= 0 {
        0
    } else {
        age_sum_upto(s, now, k - 1) + age_days(now, s[k - 1].created_at as int)
    }
}

/// Quality of a fused record: the mean of source diversity, confidence
/// consistency (one minus the standard deviation of the members'
/// confidences) and temporal freshness (decaying over thirty days).
pub open spec fn spec_quality(s: Seq<IntelEntity>, now: int) -> int {
    let n = s.len() as int;
    let diversity = distinct_sources_upto(s, n) * CONF_SCALE / n;
    let mean = sum_conf(s) / n;
    let variance = sq_dev_sum(s, mean, n) / n;
    let sd = crate::numeric::floor_sqrt(variance);
    let consistency = if sd < CONF_SCALE {
        CONF_SCALE - sd
    } else {
        0
    };
    let freshness = 30 * (CONF_SCALE as int) * n / (30 * n + age_sum_upto(s, now, n));
    (diversity + consistency + freshness) / 3
}

// ------------------------------------------------------------------
// Executing a fusion
// ------------------------------------------------------------------

/// Whole days between `now` and a creation time, clamped at zero.
fn age_days_exec(now: i64, created: i64) -> (a: u64)
    ensures
        a == age_days(now as int, created as int),
{
    if created >= now {
        0
    } else {
        (((now as i128) - (created as i128)) as u64) / 86400
    }
}

/// Member with the highest confidence, earliest first among equals.
fn best_member(group: &Vec<IntelEntity>) -> (b: usize)
    requires
        group@.len() >= 1,
    ensures
        b == best_index(group@),
        b < group@.len(),
{
    proof {
        lemma_best_index_range(group@);
    }
    let n = group.len();
    let mut b: usize = 0;
    assert(group@.take(1).len() == 1 && best_index(group@.take(1)) == 0);
    for k in 1..n
        invariant
            n == group@.len(),
            b < k <= n,
            b == best_index(group@.take(k as int)),
        decreases n - k,
    {
        proof {
            let pre = group@.take(k as int);
            let cur = group@.take(k + 1);
            assert(cur.drop_last() =~= pre);
            assert(cur.last() == group@[k as int]);
            lemma_best_index_range(pre);
            assert(forall|t: int| 0 <= t < k ==> cur[t] == pre[t]);
        }
        if group[k].confidence > group[b].confidence {
            b = k;
        }
    }
    proof {
        assert(group@.take(n as int) =~= group@);
    }
    b
}

impl DataFusionEngine {
    /// Fused confidence of a non-empty group under a strategy.
    #[verifier::rlimit(100)]
    fn apply_strategy(&self, group: &Vec<IntelEntity>, strategy: FusionStrategy, now: i64) -> (c:
        u64)
        requires
            all_wf(group@),
            1 <= group@.len() <= MAX_BATCH,
        ensures
            c == spec_fused_confidence(group@, strategy, self.confidence_models@, now as int),
            c <= CONF_SCALE,
    {
        proof {
            lemma_fused_confidence_range(group@, strategy, self.confidence_models@, now as int);
        }
        let n = group.len();
        match strategy {
            FusionStrategy::HighestConfidence => {
                let b = best_member(group);
                assert(group@[b as int].wf());
                group[b].confidence
            },
            FusionStrategy::WeightedAverage => {
                let mut wsum: u128 = 0;
                let mut wtot: u128 = 0;
                for k in 0..n
                    invariant
                        n == group@.len() <= MAX_BATCH,
                        all_wf(group@),
                        wsum == weighted_conf_sum(group@.take(k as int), self.confidence_models@),
                        wtot == weight_sum(group@.take(k as int), self.confidence_models@),
                        wsum <= (k as int) * (CONF_SCALE as int) * (u64::MAX as int),
                        wtot <= (k as int) * (u64::MAX as int),
                {
                    let w = self.get_source_weight(&group[k].source);
                    proof {
                        let pre = group@.take(k as int);
                        let cur = group@.take(k + 1);
                        assert(cur.drop_last() =~= pre);
                        assert(cur.last() == group@[k as int]);
                        assert(group@[k as int].wf());
                        lemma_weight_of_range(self.confidence_models@, group@[k as int].source@, 0);
                        assert((group@[k as int].confidence as int) * (w as int) <= (
                        CONF_SCALE as int) * (u64::MAX as int)) by (nonlinear_arith)
                            requires
                                group@[k as int].confidence <= CONF_SCALE,
                                w <= u64::MAX,
                        ;
                        assert((k as int) * (CONF_SCALE as int) * (u64::MAX as int) + (
                        CONF_SCALE as int) * (u64::MAX as int) == (k + 1) * (CONF_SCALE as int) * (
                        u64::MAX as int)) by (nonlinear_arith);
                        assert((k + 1) * (CONF_SCALE as int) * (u64::MAX as int)
                            < 0x100000000000000000000000000000000) by (nonlinear_arith)
                            requires
                                0 <= k + 1 <= MAX_BATCH,
                        ;
                        assert((k + 1) * (u64::MAX as int) < 0x100000000000000000000000000000000)
                            by (nonlinear_arith)
                            requires
                                0 <= k + 1 <= MAX_BATCH,
                        ;
                    }
                    wsum = wsum + (group[k].confidence as u128) * (w as u128);
                    wtot = wtot + (w as u128);
                }
                proof {
                    assert(group@.take(n as int) =~= group@);
                }
                if wtot > 0 {
                    proof {
                        lemma_weighted_sums_range(group@, self.confidence_models@);
                        assert(wsum / wtot <= CONF_SCALE) by (nonlinear_arith)
                            requires
                                wtot > 0,
                                wsum <= (CONF_SCALE as int) * wtot,
                        ;
                    }
                    (wsum / wtot) as u64
                } else {
                    assert(group@[0].wf());
                    group[0].confidence
                }
            },
            FusionStrategy::TemporalDecay => {
                let mut dsum: u128 = 0;
                let mut dtot: u128 = 0;
                for k in 0..n
                    invariant
                        n == group@.len() <= MAX_BATCH,
                        all_wf(group@),
                        dsum == decay_conf_sum(group@.take(k as int), now as int),
                        dtot == decay_weight_sum(group@.take(k as int), now as int),
                        dsum <= (k as int) * (CONF_SCALE as int) * (CONF_SCALE as int),
                        dtot <= (k as int) * (CONF_SCALE as int),
                {
                    let age = age_days_exec(now, group[k].created_at);
                    let w = decay_weight(age);
                    proof {
                        let pre = group@.take(k as int);
                        let cur = group@.take(k + 1);
                        assert(cur.drop_last() =~= pre);
                        assert(cur.last() == group@[k as int]);
                        assert(group@[k as int].wf());
                        assert((group@[k as int].confidence as int) * (w as int) <= (
                        CONF_SCALE as int) * (CONF_SCALE as int)) by (nonlinear_arith)
                            requires
                                group@[k as int].confidence <= CONF_SCALE,
                                w <= CONF_SCALE,
                        ;
                        assert((k as int) * (CONF_SCALE as int) * (CONF_SCALE as int) + (
                        CONF_SCALE as int) * (CONF_SCALE as int) == (k + 1) * (CONF_SCALE as int)
                            * (CONF_SCALE as int)) by (nonlinear_arith);
                        assert((k + 1) * (CONF_SCALE as int) * (CONF_SCALE as int)
                            < 0x100000000000000000000000000000000) by (nonlinear_arith)
                            requires
                                0 <= k + 1 <= MAX_BATCH,
                        ;
                        assert((k + 1) * (CONF_SCALE as int) < 0x100000000000000000000000000000000)
                            by (nonlinear_arith)
                            requires
                                0 <= k + 1 <= MAX_BATCH,
                        ;
                    }
                    dsum = dsum + (group[k].confidence as u128) * (w as u128);
                    dtot = dtot + (w as u128);
                }
                proof {
                    assert(group@.take(n as int) =~= group@);
                }
                if dtot > 0 {
                    proof {
                        lemma_decay_sums_range(group@, now as int);
                        assert(dsum / dtot <= CONF_SCALE) by (nonlinear_arith)
                            requires
                                dtot > 0,
                                dsum <= (CONF_SCALE as int) * dtot,
                        ;
                    }
                    (dsum / dtot) as u64
                } else {
                    assert(group@[0].wf());
                    group[0].confidence
                }
            },
            _ => {
                // AverageConfidence, and the documented fallback for
                // BayesianFusion and any strategy without a numeric rule.
                let mut sum: u64 = 0;
                for k in 0..n
                    invariant
                        n == group@.len() <= MAX_BATCH,
                        all_wf(group@),
                        sum == sum_conf(group@.take(k as int)),
                        sum <= (k as int) * (CONF_SCALE as int),
                {
                    proof {
                        let pre = group@.take(k as int);
                        let cur = group@.take(k + 1);
                        assert(cur.drop_last() =~= pre);
                        assert(cur.last() == group@[k as int]);
                        assert(group@[k as int].wf());
                        assert((k as int) * (CONF_SCALE as int) + (CONF_SCALE as int) == (k + 1) * (
                        CONF_SCALE as int)) by (nonlinear_arith);
                    }
                    sum = sum + group[k].confidence;
                }
                proof {
                    assert(group@.take(n as int) =~= group@);
                    lemma_sum_conf_range(group@);
                    assert(sum / (n as u64) <= CONF_SCALE) by (nonlinear_arith)
                        requires
                            n >= 1,
                            sum <= (n as int) * (CONF_SCALE as int),
                    ;
                }
                sum / (n as u64)
            },
        }
    }

    /// Quality of fusing the group, as the specification's three-factor
    /// mean.
    #[verifier::rlimit(100)]
    pub fn calculate_fusion_quality(&self, group: &Vec<IntelEntity>, now: i64) -> (q: u64)
        requires
            all_wf(group@),
            1 <= group@.len() <= MAX_BATCH,
        ensures
            q == spec_quality(group@, now as int),
            q <= CONF_SCALE,
    {
        let n = group.len();

        // Source diversity.
        let mut distinct: u64 = 0;
        for k in 0..n
            invariant
                n == group@.len(),
                distinct == distinct_sources_upto(group@, k as int),
                distinct <= k,
        {
            let mut seen = false;
            let mut j: usize = 0;
            while j < k
                invariant
                    k < n == group@.len(),
                    j <= k,
                    seen == exists|t: int|
                        0 <= t < j && #[trigger] group@[t].source@ == group@[k as int].source@,
                decreases k - j,
            {
                if group[j].source.eq(&group[k].source) {
                    seen = true;
                }
                j += 1;
            }
            if !seen {
                distinct += 1;
            }
        }
        let diversity: u64 = distinct * CONF_SCALE / (n as u64);
        proof {
            assert(diversity <= CONF_SCALE) by (nonlinear_arith)
                requires
                    n >= 1,
                    distinct <= (n as int),
                    diversity == (distinct as int) * (CONF_SCALE as int) / (n as int),
            ;
        }

        // Confidence consistency.
        let mut sum: u64 = 0;
        for k in 0..n
            invariant
                n == group@.len() <= MAX_BATCH,
                all_wf(group@),
                sum == sum_conf(group@.take(k as int)),
                sum <= (k as int) * (CONF_SCALE as int),
        {
            proof {
                let pre = group@.take(k as int);
                let cur = group@.take(k + 1);
                assert(cur.drop_last() =~= pre);
                assert(cur.last() == group@[k as int]);
                assert(group@[k as int].wf());
                assert((k as int) * (CONF_SCALE as int) + (CONF_SCALE as int) == (k + 1) * (
                CONF_SCALE as int)) by (nonlinear_arith);
            }
            sum = sum + group[k].confidence;
        }
        proof {
            assert(group@.take(n as int) =~= group@);
            assert(sum / (n as u64) <= CONF_SCALE) by (nonlinear_arith)
                requires
                    n >= 1,
                    sum <= (n as int) * (CONF_SCALE as int),
            ;
        }
        let mean: u64 = sum / (n as u64);
        let mut devs: u64 = 0;
        for k in 0..n
            invariant
                n == group@.len() <= MAX_BATCH,
                all_wf(group@),
                mean <= CONF_SCALE,
                devs == sq_dev_sum(group@, mean as int, k as int),
                devs <= (k as int) * (CONF_SCALE as int) * (CONF_SCALE as int),
        {
            assert(group@[k as int].wf());
            let c = group[k].confidence;
            let diff: u64 = if c >= mean {
                c - mean
            } else {
                mean - c
            };
            proof {
                assert(diff <= CONF_SCALE);
                assert((diff as int) * (diff as int) == (c - mean) * (c - mean))
                    by (nonlinear_arith)
                    requires
                        diff == if c >= mean {
                            c - mean
                        } else {
                            mean - c
                        },
                ;
                assert((diff as int) * (diff as int) <= (CONF_SCALE as int) * (CONF_SCALE as int))
                    by (nonlinear_arith)
                    requires
                        diff <= CONF_SCALE,
                ;
                assert((k as int) * (CONF_SCALE as int) * (CONF_SCALE as int) + (CONF_SCALE as int)
                    * (CONF_SCALE as int) == (k + 1) * (CONF_SCALE as int) * (CONF_SCALE as int))
                    by (nonlinear_arith);
                assert((k + 1) * (CONF_SCALE as int) * (CONF_SCALE as int) <= 0xffffffffffffffff)
                    by (nonlinear_arith)
                    requires
                        0 <= k + 1 <= MAX_BATCH,
                ;
            }
            devs = devs + diff * diff;
        }
        let variance: u64 = devs / (n as u64);
        proof {
            assert(variance <= (CONF_SCALE as int) * (CONF_SCALE as int)) by (nonlinear_arith)
                requires
                    n >= 1,
                    devs <= (n as int) * (CONF_SCALE as int) * (CONF_SCALE as int),
                    variance == (devs as int) / (n as int),
            ;
        }
        let sd = isqrt(variance);
        let consistency: u64 = if sd < CONF_SCALE {
            CONF_SCALE - sd
        } else {
            0
        };

        // Temporal freshness.
        let mut ages: u128 = 0;
        for k in 0..n
            invariant
                n == group@.len() <= MAX_BATCH,
                ages == age_sum_upto(group@, now as int, k as int),
                ages <= (k as int) * (u64::MAX as int),
        {
            let age = age_days_exec(now, group[k].created_at);
            proof {
                assert((k as int) * (u64::MAX as int) + (u64::MAX as int) == (k + 1) * (
                u64::MAX as int)) by (nonlinear_arith);
                assert((k + 1) * (u64::MAX as int) < 0x100000000000000000000000000000000)
                    by (nonlinear_arith)
                    requires
                        0 <= k + 1 <= MAX_BATCH,
                ;
            }
            ages = ages + (age as u128);
        }
        let freshness_num: u128 = 30 * (CONF_SCALE as u128) * (n as u128);
        let freshness_den: u128 = 30 * (n as u128) + ages;
        let freshness: u64 = (freshness_num / freshness_den) as u64;
        proof {
            assert(freshness_num <= (CONF_SCALE as int) * freshness_den) by (nonlinear_arith)
                requires
                    n >= 1,
                    ages >= 0,
                    freshness_num == 30 * (CONF_SCALE as int) * (n as int),
                    freshness_den == 30 * (n as int) + ages,
            ;
            assert(freshness_num / freshness_den <= CONF_SCALE) by (nonlinear_arith)
                requires
                    freshness_den > 0,
                    freshness_num <= (CONF_SCALE as int) * freshness_den,
            ;
        }

        let q = (diversity + consistency + freshness) / 3;
        q
    }
}

// ------------------------------------------------------------------
// Assembling a fusion result
// ------------------------------------------------------------------

/// Group members are in canonical order: strictly ascending identifiers.
pub open spec fn sorted_by_id(s: Seq<IntelEntity>) -> bool {
    forall|i: int, j: int| 0 <= i < j < s.len() ==> s[i].id < s[j].id
}

/// Copy a vector of relationships.
fn clone_relationships(v: &Vec<EntityRelationship>) -> (r: Vec<EntityRelationship>)
    ensures
        r@ == v@,
{
    let mut r: Vec<EntityRelationship> = Vec::new();
    let n = v.len();
    for k in 0..n
        invariant
            n == v@.len(),
            r@ =~= v@.take(k as int),
    {
        let e = &v[k];
        r.push(
            EntityRelationship {
                target_entity_id: e.target_entity_id,
                relationship_type: e.relationship_type,
                confidence: e.confidence,
                first_seen: e.first_seen,
                last_seen: e.last_seen,
                source: e.source.clone(),
            },
        );
        assert(r@.last() == v@[k as int]);
        assert(r@ =~= v@.take(k + 1));
    }
    assert(r@ =~= v@);
    r
}

/// Copy an optional string.
pub(crate) fn clone_opt_string(o: &Option<String>) -> (r: Option<String>)
    ensures
        r == *o,
{
    match o {
        Option::None => Option::None,
        Option::Some(s) => Option::Some(s.clone()),
    }
}

/// An identifier distinct from every member's: a randomly drawn one when
/// it happens to be free, else the least identifier the sorted group does
/// not use.
fn fresh_group_id(group: &Vec<IntelEntity>) -> (id: u128)
    requires
        sorted_by_id(group@),
    ensures
        forall|k: int| 0 <= k < group@.len() ==> id != group@[k].id,
{
    let n = group.len();
    let cand = random_id();
    let mut clash = false;
    for k in 0..n
        invariant
            n == group@.len(),
            clash == exists|j: int| 0 <= j < k && #[trigger] group@[j].id == cand,
    {
        if group[k].id == cand {
            clash = true;
        }
    }
    if !clash {
        return cand;
    }
    let mut c: u128 = 0;
    let mut k: usize = 0;
    while k < n
        invariant_except_break
            n == group@.len(),
            sorted_by_id(group@),
            k <= n,
            c == k as u128,
            forall|j: int| 0 <= j < k ==> #[trigger] group@[j].id == j,
        ensures
            forall|j: int| 0 <= j < group@.len() ==> #[trigger] group@[j].id != c,
        decreases n - k,
    {
        if group[k].id == c {
            c = c + 1;
            k += 1;
        } else {
            proof {
                // Sorted and dense so far: every later member exceeds `c`.
                assert forall|j: int|
                    0 <= j < group@.len() implies #[trigger] group@[j].id != c by {
                    if j >= k {
                        if k > 0 {
                            assert(group@[k - 1].id == k - 1);
                            if j > k as int {
                                assert(group@[k as int].id < group@[j].id);
                            }
                        } else {
                            if j > 0 {
                                assert(group@[0].id < group@[j].id);
                            }
                        }
                    }
                }
            }
            break ;
        }
    }
    c
}

// ------------------------------------------------------------------
// Grouping correlated entities
// ------------------------------------------------------------------

/// Entity identifiers are pairwise distinct (the batch is deduplicated
/// upstream).
pub open spec fn distinct_ids(s: Seq<IntelEntity>) -> bool {
    forall|i: int, j: int| 0 <= i < j < s.len() ==> s[i].id != s[j].id
}

/// The caller-supplied table of pairwise great-circle distances is
/// square, symmetric, and carries a distance exactly for the pairs where
/// both entities have a location.
pub open spec fn distance_table_ok(s: Seq<IntelEntity>, d: Seq<Vec<Option<u64>>>) -> bool {
    &&& d.len() == s.len()
    &&& (forall|i: int| 0 <= i < d.len() ==> #[trigger] d[i]@.len() == s.len())
    &&& (forall|i: int, j: int| 0 <= i < s.len() && 0 <= j < s.len() ==> d[i]@[j] == d[j]@[i])
    &&& (forall|i: int, j: int|
        0 <= i < s.len() && 0 <= j < s.len() && i != j ==> ((#[trigger] d[i]@[j] is Some) <==> (
        s[i].location is Some && s[j].location is Some)))
}

/// Two entities correlate strongly enough to share a group.
pub open spec fn correlated(s: Seq<IntelEntity>, d: Seq<Vec<Option<u64>>>, i: int, j: int) -> bool {
    pair_confidence(s[i], s[j], d[i]@[j]) >= CORRELATION_THRESHOLD
}

/// Some position of `order` holds the value `v`.
pub open spec fn order_covers(order: Seq<usize>, v: int) -> bool {
    exists|k: int| 0 <= k < order.len() && #[trigger] order[k] == v
}

/// `order` lists positions of `s` with strictly ascending identifiers and
/// covers every position.
pub open spec fn canonical_order(s: Seq<IntelEntity>, order: Seq<usize>) -> bool {
    &&& order.len() == s.len()
    &&& (forall|k: int| 0 <= k < order.len() ==> #[trigger] order[k] < s.len())
    &&& (forall|a: int, b: int|
        0 <= a < b < order.len() ==> s[order[a] as int].id < s[order[b] as int].id)
    &&& (forall|v: int| 0 <= v < s.len() ==> #[trigger] order_covers(order, v))
}

/// Sort the positions of the batch by entity identifier, ascending.
fn sort_indices_by_id(entities: &Vec<IntelEntity>) -> (order: Vec<usize>)
    requires
        distinct_ids(entities@),
    ensures
        canonical_order(entities@, order@),
{
    let n = entities.len();
    let mut order: Vec<usize> = Vec::new();
    for i in 0..n
        invariant
            n == entities@.len(),
            distinct_ids(entities@),
            order@.len() == i,
            forall|k: int| 0 <= k < order@.len() ==> #[trigger] order@[k] < i,
            forall|a: int, b: int|
                0 <= a < b < order@.len() ==> entities@[order@[a] as int].id
                    < entities@[order@[b] as int].id,
            forall|v: int| 0 <= v < i ==> #[trigger] order_covers(order@, v),
    {
        let id_i = entities[i].id;
        let mut j: usize = 0;
        while j < order.len()
            invariant_except_break
                n == entities@.len(),
                i < n,
                id_i == entities@[i as int].id,
                j <= order@.len(),
                forall|k: int| 0 <= k < order@.len() ==> #[trigger] order@[k] < i,
                forall|t: int| 0 <= t < j ==> entities@[order@[t] as int].id < id_i,
            ensures
                j <= order@.len(),
                forall|t: int| 0 <= t < j ==> entities@[order@[t] as int].id < id_i,
                j < order@.len() ==> entities@[order@[j as int] as int].id >= id_i,
            decreases order@.len() - j,
        {
            if entities[order[j]].id >= id_i {
                break ;
            }
            j += 1;
        }
        let ghost pre = order@;
        let ghost jj = j as int;
        order.insert(j, i);
        proof {
            pre.insert_ensures(jj, i);
            // Entries at or after the insertion point carry larger ids:
            // they were not passed by the scan, and ids are distinct.
            assert forall|a: int, b: int|
                0 <= a < b < order@.len() implies entities@[order@[a] as int].id
                < entities@[order@[b] as int].id by {
                if a < jj && b == jj {
                } else if a == jj && b > jj {
                    assert(order@[b] == pre[b - 1]);
                    assert(entities@[pre[b - 1] as int].id != id_i);
                    if b - 1 < jj {
                    } else {
                        if jj < pre.len() {
                            assert(entities@[pre[jj] as int].id >= id_i);
                            if b - 1 > jj {
                                assert(entities@[pre[jj] as int].id
                                    < entities@[pre[b - 1] as int].id);
                            }
                        }
                    }
                } else if a < jj && b > jj {
                    assert(order@[a] == pre[a]);
                    assert(order@[b] == pre[b - 1]);
                    assert(entities@[pre[a] as int].id < id_i);
                    if b - 1 < jj {
                        assert(entities@[pre[a] as int].id < entities@[pre[b - 1] as int].id);
                    } else if jj < pre.len() {
                        assert(entities@[pre[jj] as int].id >= id_i);
                        if b - 1 > jj {
                            assert(entities@[pre[jj] as int].id < entities@[pre[b - 1] as int].id);
                        }
                    }
                } else if a > jj && b > jj {
                    assert(order@[a] == pre[a - 1]);
                    assert(order@[b] == pre[b - 1]);
                } else if a < jj && b < jj {
                    assert(order@[a] == pre[a]);
                    assert(order@[b] == pre[b]);
                }
            }
            assert forall|v: int| 0 <= v < i + 1 implies #[trigger] order_covers(order@, v) by {
                if v == i {
                    assert(order@[jj] == i);
                } else {
                    assert(order_covers(pre, v));
                    let k0 = choose|k0: int| 0 <= k0 < pre.len() && #[trigger] pre[k0] == v;
                    if k0 < jj {
                        assert(order@[k0] == v);
                    } else {
                        assert(order@[k0 + 1] == v);
                    }
                }
            }
        }
    }
    order
}

/// Whether a pair has been handled by the pairwise scan at state (a, b).
spec fn pair_done(n: int, a: int, b: int, x: int, y: int) -> bool {
    0 <= x < y < n && (x < a || (x == a && y < b))
}

impl DataFusionEngine {
    /// Union-find pass: the representative of every canonical position,
    /// after joining every pair whose correlation reaches the threshold.
    fn correlation_roots(
        &self,
        entities: &Vec<IntelEntity>,
        geo_distances_mm: &Vec<Vec<Option<u64>>>,
        order: &Vec<usize>,
        now: i64,
    ) -> (roots: Vec<usize>)
        requires
            canonical_order(entities@, order@),
            distance_table_ok(entities@, geo_distances_mm@),
        ensures
            roots@.len() == entities@.len(),
            forall|z: int| 0 <= z < roots@.len() ==> #[trigger] roots@[z] < entities@.len(),
            forall|x: int, y: int|
                0 <= x < y < entities@.len() && correlated(
                    entities@,
                    geo_distances_mm@,
                    order@[x] as int,
                    order@[y] as int,
                ) ==> roots@[x] == roots@[y],
    {
        let n = entities.len();
        let mut ds = crate::grouping::DisjointSet::new(n);
        let mut a: usize = 0;
        while a < n
            invariant
                n == entities@.len(),
                canonical_order(entities@, order@),
                distance_table_ok(entities@, geo_distances_mm@),
                a <= n,
                ds.wf(),
                ds.spec_len() == n,
                forall|x: int, y: int|
                    pair_done(n as int, a as int, a as int + 1, x, y) && correlated(
                        entities@,
                        geo_distances_mm@,
                        order@[x] as int,
                        order@[y] as int,
                    ) ==> ds.spec_root(x) == ds.spec_root(y),
            decreases n - a,
        {
            let mut b: usize = a + 1;
            while b < n
                invariant
                    n == entities@.len(),
                    canonical_order(entities@, order@),
                    distance_table_ok(entities@, geo_distances_mm@),
                    a < n,
                    a + 1 <= b <= n,
                    ds.wf(),
                    ds.spec_len() == n,
                    forall|x: int, y: int|
                        pair_done(n as int, a as int, b as int, x, y) && correlated(
                            entities@,
                            geo_distances_mm@,
                            order@[x] as int,
                            order@[y] as int,
                        ) ==> ds.spec_root(x) == ds.spec_root(y),
                decreases n - b,
            {
                let ia = order[a];
                let ib = order[b];
                let dist = geo_distances_mm[ia][ib];
                let m = self.calculate_entity_correlation(&entities[ia], &entities[ib], dist, now);
                if m.confidence >= CORRELATION_THRESHOLD {
                    let ghost p0 = ds.parent@;
                    ds.union(a, b);
                    proof {
                        assert forall|x: int, y: int|
                            pair_done(n as int, a as int, b as int + 1, x, y) && correlated(
                                entities@,
                                geo_distances_mm@,
                                order@[x] as int,
                                order@[y] as int,
                            ) implies ds.spec_root(x) == ds.spec_root(y) by {
                            assert(crate::grouping::root_of(ds.parent@, x)
                                == crate::grouping::merged_root(p0, a as int, b as int, x));
                            assert(crate::grouping::root_of(ds.parent@, y)
                                == crate::grouping::merged_root(p0, a as int, b as int, y));
                            if pair_done(n as int, a as int, b as int, x, y) {
                                assert(crate::grouping::root_of(p0, x)
                                    == crate::grouping::root_of(p0, y));
                            }
                        }
                    }
                } else {
                    proof {
                        assert forall|x: int, y: int|
                            pair_done(n as int, a as int, b as int + 1, x, y) && correlated(
                                entities@,
                                geo_distances_mm@,
                                order@[x] as int,
                                order@[y] as int,
                            ) implies ds.spec_root(x) == ds.spec_root(y) by {
                            assert(pair_done(n as int, a as int, b as int, x, y));
                        }
                    }
                }
                b += 1;
            }
            proof {
                assert forall|x: int, y: int|
                    pair_done(n as int, a as int + 1, a as int + 2, x, y) && correlated(
                        entities@,
                        geo_distances_mm@,
                        order@[x] as int,
                        order@[y] as int,
                    ) implies ds.spec_root(x) == ds.spec_root(y) by {
                    assert(pair_done(n as int, a as int, n as int, x, y));
                }
            }
            a += 1;
        }
        let mut roots: Vec<usize> = Vec::new();
        let mut z: usize = 0;
        while z < n
            invariant
                n == entities@.len(),
                z <= n,
                ds.wf(),
                ds.spec_len() == n,
                roots@.len() == z,
                forall|z2: int| 0 <= z2 < z ==> #[trigger] roots@[z2] == ds.spec_root(z2),
                forall|z2: int| 0 <= z2 < z ==> #[trigger] roots@[z2] < n,
                forall|x: int, y: int|
                    0 <= x < y < n && correlated(
                        entities@,
                        geo_distances_mm@,
                        order@[x] as int,
                        order@[y] as int,
                    ) ==> ds.spec_root(x) == ds.spec_root(y),
            decreases n - z,
        {
            let r = ds.find(z);
            proof {
                crate::grouping::lemma_root_props(ds.parent@, z as int);
            }
            roots.push(r);
            z += 1;
        }
        roots
    }
}

/// Whether a group (a list of identifiers) contains `id`.
pub open spec fn in_group(groups: Seq<Vec<u128>>, g: int, id: u128) -> bool {
    exists|t: int| 0 <= t < groups[g]@.len() && groups[g]@[t] == id
}

/// Some position of `rs` holds the value `r`.
spec fn root_listed(rs: Seq<int>, r: int) -> bool {
    exists|k: int| 0 <= k < rs.len() && rs[k] == r
}

/// Copy a vector of identifiers.
pub(crate) fn clone_ids(v: &Vec<u128>) -> (r: Vec<u128>)
    ensures
        r@ == v@,
{
    let mut r: Vec<u128> = Vec::new();
    let n = v.len();
    for k in 0..n
        invariant
            n == v@.len(),
            r@ =~= v@.take(k as int),
    {
        r.push(v[k]);
        assert(r@ =~= v@.take(k + 1));
    }
    assert(r@ =~= v@);
    r
}

/// The value `v` is the identifier of a position before `upto` whose
/// representative is `r2`.
spec fn bucket_entry_ok(
    s: Seq<IntelEntity>,
    ord: Seq<usize>,
    roots: Seq<usize>,
    upto: int,
    r2: int,
    v: u128,
) -> bool {
    exists|z2: int|
        0 <= z2 < upto && roots[z2] == r2 && #[trigger] s[ord[z2] as int].id == v
}

/// The identifier of position `z2` sits in its representative's bucket.
spec fn member_in_bucket(
    bks: Seq<Vec<u128>>,
    s: Seq<IntelEntity>,
    ord: Seq<usize>,
    roots: Seq<usize>,
    z2: int,
) -> bool {
    exists|t: int|
        0 <= t < bks[roots[z2] as int]@.len() && #[trigger] bks[roots[z2] as int]@[t]
            == s[ord[z2] as int].id
}

/// Bucket every canonical position's identifier under its class
/// representative.
#[verifier::rlimit(100)]
fn bucket_members(entities: &Vec<IntelEntity>, order: &Vec<usize>, roots: &Vec<usize>) -> (buckets:
    Vec<Vec<u128>>)
    requires
        canonical_order(entities@, order@),
        roots@.len() == entities@.len(),
        forall|z: int| 0 <= z < roots@.len() ==> #[trigger] roots@[z] < entities@.len(),
    ensures
        buckets@.len() == entities@.len(),
        forall|r2: int, t: int|
            0 <= r2 < buckets@.len() && 0 <= t < buckets@[r2]@.len() ==> bucket_entry_ok(
                entities@,
                order@,
                roots@,
                entities@.len() as int,
                r2,
                #[trigger] buckets@[r2]@[t],
            ),
        forall|z2: int|
            0 <= z2 < entities@.len() ==> #[trigger] member_in_bucket(
                buckets@,
                entities@,
                order@,
                roots@,
                z2,
            ),
        forall|r2: int, t1: int, t2: int|
            0 <= r2 < buckets@.len() && 0 <= t1 < t2 < buckets@[r2]@.len() ==> buckets@[r2]@[t1]
                < buckets@[r2]@[t2],
        forall|r2: int|
            0 <= r2 < buckets@.len() ==> #[trigger] buckets@[r2]@.len() <= entities@.len(),
{
    let n = entities.len();
    let mut buckets: Vec<Vec<u128>> = Vec::new();
    for r in 0..n
        invariant
            buckets@.len() == r,
            forall|r2: int| 0 <= r2 < r ==> #[trigger] buckets@[r2]@.len() == 0,
    {
        buckets.push(Vec::new());
    }
    let ghost s = entities@;
    let ghost ord = order@;
    for z in 0..n
        invariant
            n == entities@.len(),
            canonical_order(entities@, order@),
            s == entities@,
            ord == order@,
            roots@.len() == n,
            forall|z2: int| 0 <= z2 < n ==> #[trigger] roots@[z2] < n,
            buckets@.len() == n,
            forall|r2: int, t: int|
                0 <= r2 < n && 0 <= t < buckets@[r2]@.len() ==> bucket_entry_ok(
                    s,
                    ord,
                    roots@,
                    z as int,
                    r2,
                    #[trigger] buckets@[r2]@[t],
                ),
            forall|z2: int|
                0 <= z2 < z ==> #[trigger] member_in_bucket(buckets@, s, ord, roots@, z2),
            forall|r2: int, t1: int, t2: int|
                0 <= r2 < n && 0 <= t1 < t2 < buckets@[r2]@.len() ==> buckets@[r2]@[t1]
                    < buckets@[r2]@[t2],
            forall|r2: int| 0 <= r2 < n ==> #[trigger] buckets@[r2]@.len() <= z,
    {
        let r = roots[z];
        let ghost pre = buckets@;
        let id = entities[order[z]].id;
        buckets[r].push(id);
        proof {
            let rr = r as int;
            let zz = z as int;
            assert(buckets@.len() == pre.len());
            assert(buckets@[rr]@ == pre[rr]@.push(id));
            assert(forall|r2: int| 0 <= r2 < n && r2 != rr ==> buckets@[r2] == pre[r2]);
            assert(s[ord[zz] as int].id == id);
            assert(bucket_entry_ok(s, ord, roots@, zz + 1, rr, id));
            assert forall|r2: int, t: int|
                0 <= r2 < n && 0 <= t < buckets@[r2]@.len() implies bucket_entry_ok(
                s,
                ord,
                roots@,
                zz + 1,
                r2,
                #[trigger] buckets@[r2]@[t],
            ) by {
                if r2 == rr && t == pre[rr]@.len() {
                    assert(buckets@[r2]@[t] == id);
                } else {
                    assert(buckets@[r2]@[t] == pre[r2]@[t]);
                    assert(bucket_entry_ok(s, ord, roots@, zz, r2, pre[r2]@[t]));
                    let z2 = choose|z2: int|
                        0 <= z2 < zz && roots@[z2] == r2 && #[trigger] s[ord[z2] as int].id
                            == pre[r2]@[t];
                    assert(0 <= z2 < zz + 1 && roots@[z2] == r2 && s[ord[z2] as int].id
                        == buckets@[r2]@[t]);
                }
            }
            assert forall|z2: int|
                0 <= z2 < zz + 1 implies #[trigger] member_in_bucket(
                buckets@,
                s,
                ord,
                roots@,
                z2,
            ) by {
                if z2 == zz {
                    assert(buckets@[rr]@[pre[rr]@.len() as int] == s[ord[zz] as int].id);
                } else {
                    assert(member_in_bucket(pre, s, ord, roots@, z2));
                    let t = choose|t: int|
                        0 <= t < pre[roots@[z2] as int]@.len()
                            && #[trigger] pre[roots@[z2] as int]@[t] == s[ord[z2] as int].id;
                    if roots@[z2] == rr {
                        assert(buckets@[rr]@[t] == pre[rr]@[t]);
                    }
                    assert(buckets@[roots@[z2] as int]@[t] == s[ord[z2] as int].id);
                }
            }
            assert forall|r2: int, t1: int, t2: int|
                0 <= r2 < n && 0 <= t1 < t2 < buckets@[r2]@.len() implies buckets@[r2]@[t1]
                < buckets@[r2]@[t2] by {
                if r2 == rr && t2 == pre[rr]@.len() {
                    // The new entry's id exceeds everything already in the
                    // bucket: earlier positions carry smaller ids.
                    assert(buckets@[r2]@[t1] == pre[r2]@[t1]);
                    assert(bucket_entry_ok(s, ord, roots@, zz, r2, pre[r2]@[t1]));
                    let z2 = choose|z2: int|
                        0 <= z2 < zz && roots@[z2] == r2 && #[trigger] s[ord[z2] as int].id
                            == pre[r2]@[t1];
                    assert(s[ord[z2] as int].id < s[ord[zz] as int].id);
                } else {
                    assert(buckets@[r2]@[t1] == pre[r2]@[t1]);
                    assert(buckets@[r2]@[t2] == pre[r2]@[t2]);
                }
            }
        }
    }
    buckets
}

/// Emit the classes with at least two members, together with the list of
/// class representatives used, in ascending order.
fn emit_groups(buckets: &Vec<Vec<u128>>) -> (res: (Vec<Vec<u128>>, Ghost<Seq<int>>))
    ensures
        ({
            let out = res.0;
            let rs = res.1@;
            &&& rs.len() == out@.len()
            &&& (forall|k: int|
                0 <= k < rs.len() ==> 0 <= #[trigger] rs[k] < buckets@.len() && out@[k]@
                    == buckets@[rs[k]]@ && out@[k]@.len() >= 2)
            &&& (forall|k1: int, k2: int| 0 <= k1 < k2 < rs.len() ==> rs[k1] < rs[k2])
            &&& (forall|r2: int|
                0 <= r2 < buckets@.len() && buckets@[r2]@.len() >= 2 ==> #[trigger] root_listed(
                    rs,
                    r2,
                ))
        }),
{
    let n = buckets.len();
    let mut out: Vec<Vec<u128>> = Vec::new();
    let ghost mut rs: Seq<int> = Seq::empty();
    for r in 0..n
        invariant
            n == buckets@.len(),
            rs.len() == out@.len(),
            forall|k: int|
                0 <= k < rs.len() ==> 0 <= #[trigger] rs[k] < r && out@[k]@ == buckets@[rs[k]]@
                    && out@[k]@.len() >= 2,
            forall|k1: int, k2: int| 0 <= k1 < k2 < rs.len() ==> rs[k1] < rs[k2],
            forall|r2: int|
                0 <= r2 < r && buckets@[r2]@.len() >= 2 ==> #[trigger] root_listed(rs, r2),
    {
        if buckets[r].len() >= 2 {
            let ghost rs0 = rs;
            out.push(clone_ids(&buckets[r]));
            proof {
                rs = rs0.push(r as int);
                assert forall|r2: int|
                    0 <= r2 < r + 1 && buckets@[r2]@.len() >= 2 implies #[trigger] root_listed(
                    rs,
                    r2,
                ) by {
                    if r2 == r as int {
                        assert(rs[rs.len() - 1] == r2);
                    } else {
                        assert(root_listed(rs0, r2));
                        let k = choose|k: int| 0 <= k < rs0.len() && rs0[k] == r2;
                        assert(rs[k] == r2);
                    }
                }
            }
        } else {
            proof {
                assert forall|r2: int|
                    0 <= r2 < r + 1 && buckets@[r2]@.len() >= 2 implies #[trigger] root_listed(
                    rs,
                    r2,
                ) by {}
            }
        }
    }
    (out, Ghost(rs))
}

impl DataFusionEngine {
    /// Partition the batch into groups of transitively correlated
    /// entities.  Pairs are scored in the canonical identifier order;
    /// pairs at or above the correlation threshold are joined
    /// transitively; singleton classes are discarded.  Each returned
    /// group lists its members' identifiers in ascending order, every
    /// retained pair ends up in one common group, and no identifier
    /// appears in two groups.
    #[verifier::rlimit(100)]
    pub fn find_correlation_groups(
        &self,
        entities: &Vec<IntelEntity>,
        geo_distances_mm: &Vec<Vec<Option<u64>>>,
        now: i64,
    ) -> (groups: Vec<Vec<u128>>)
        requires
            distinct_ids(entities@),
            distance_table_ok(entities@, geo_distances_mm@),
        ensures
            forall|g: int| 0 <= g < groups@.len() ==> #[trigger] groups@[g]@.len() >= 2,
            forall|g: int| 0 <= g < groups@.len() ==> #[trigger] groups@[g]@.len()
                <= entities@.len(),
            forall|g: int, t1: int, t2: int|
                0 <= g < groups@.len() && 0 <= t1 < t2 < groups@[g]@.len()
                    ==> groups@[g]@[t1] < groups@[g]@[t2],
            forall|g: int, t: int|
                0 <= g < groups@.len() && 0 <= t < groups@[g]@.len() ==> id_present(
                    entities@,
                    groups@[g]@[t],
                ),
            forall|g1: int, g2: int, t1: int, t2: int|
                0 <= g1 < groups@.len() && 0 <= g2 < groups@.len() && g1 != g2 && 0 <= t1
                    < groups@[g1]@.len() && 0 <= t2 < groups@[g2]@.len() ==> groups@[g1]@[t1]
                    != groups@[g2]@[t2],
            forall|i: int, j: int|
                0 <= i < entities@.len() && 0 <= j < entities@.len() && entities@[i].id
                    < entities@[j].id && correlated(entities@, geo_distances_mm@, i, j)
                    ==> exists|g: int|
                    0 <= g < groups@.len() && in_group(groups@, g, entities@[i].id) && in_group(
                        groups@,
                        g,
                        entities@[j].id,
                    ),
    {
        let n = entities.len();
        let order = sort_indices_by_id(entities);
        let roots = self.correlation_roots(entities, geo_distances_mm, &order, now);
        let buckets = bucket_members(entities, &order, &roots);
        let (out, ghost_rs) = emit_groups(&buckets);
        let ghost rs = ghost_rs@;
        let ghost s = entities@;
        let ghost ord = order@;
        let ghost bks = buckets@;

        proof {
            let d = geo_distances_mm@;
            assert forall|g: int| 0 <= g < out@.len() implies #[trigger] out@[g]@.len() >= 2 by {
                assert(0 <= rs[g] < bks.len());
            }
            assert forall|g: int|
                0 <= g < out@.len() implies #[trigger] out@[g]@.len() <= entities@.len() by {
                assert(0 <= rs[g] < bks.len());
                assert(bks[rs[g]]@.len() <= entities@.len());
            }
            assert forall|g: int, t1: int, t2: int|
                0 <= g < out@.len() && 0 <= t1 < t2 < out@[g]@.len() implies out@[g]@[t1]
                < out@[g]@[t2] by {
                assert(out@[g]@ == bks[rs[g]]@);
            }
            assert forall|g: int, t: int|
                0 <= g < out@.len() && 0 <= t < out@[g]@.len() implies id_present(
                s,
                out@[g]@[t],
            ) by {
                let rt = rs[g];
                assert(out@[g]@[t] == bks[rt]@[t]);
                assert(bucket_entry_ok(s, ord, roots@, n as int, rt, bks[rt]@[t]));
                let z2 = choose|z2: int|
                    0 <= z2 < n && roots@[z2] == rt && #[trigger] s[ord[z2] as int].id
                        == bks[rt]@[t];
                assert(s[ord[z2] as int].id == out@[g]@[t]);
                assert(0 <= ord[z2] < s.len());
            }
            assert forall|g1: int, g2: int, t1: int, t2: int|
                0 <= g1 < out@.len() && 0 <= g2 < out@.len() && g1 != g2 && 0 <= t1
                    < out@[g1]@.len() && 0 <= t2 < out@[g2]@.len() implies out@[g1]@[t1]
                != out@[g2]@[t2] by {
                let r1 = rs[g1];
                let r2 = rs[g2];
                if g1 < g2 {
                    assert(r1 < r2);
                } else {
                    assert(r2 < r1);
                }
                assert(out@[g1]@[t1] == bks[r1]@[t1]);
                assert(out@[g2]@[t2] == bks[r2]@[t2]);
                assert(bucket_entry_ok(s, ord, roots@, n as int, r1, bks[r1]@[t1]));
                assert(bucket_entry_ok(s, ord, roots@, n as int, r2, bks[r2]@[t2]));
                let z1 = choose|z1: int|
                    0 <= z1 < n && roots@[z1] == r1 && #[trigger] s[ord[z1] as int].id
                        == bks[r1]@[t1];
                let z2 = choose|z2: int|
                    0 <= z2 < n && roots@[z2] == r2 && #[trigger] s[ord[z2] as int].id
                        == bks[r2]@[t2];
                if s[ord[z1] as int].id == s[ord[z2] as int].id {
                    if z1 < z2 {
                        assert(s[ord[z1] as int].id < s[ord[z2] as int].id);
                    } else if z2 < z1 {
                        assert(s[ord[z2] as int].id < s[ord[z1] as int].id);
                    }
                    assert(z1 == z2);
                }
            }
            assert forall|i: int, j: int|
                0 <= i < n && 0 <= j < n && s[i].id < s[j].id && correlated(s, d, i, j) implies
                exists|g: int|
                    0 <= g < out@.len() && in_group(out@, g, s[i].id) && in_group(
                        out@,
                        g,
                        s[j].id,
                    ) by {
                assert(order_covers(ord, i));
                assert(order_covers(ord, j));
                let x = choose|x: int| 0 <= x < ord.len() && #[trigger] ord[x] == i;
                let y = choose|y: int| 0 <= y < ord.len() && #[trigger] ord[y] == j;
                if y < x {
                    assert(s[ord[y] as int].id < s[ord[x] as int].id);
                }
                if x == y {
                    assert(s[i].id == s[j].id);
                }
                assert(x < y);
                assert(roots@[x] == roots@[y]);
                let rt = roots@[x] as int;
                assert(member_in_bucket(bks, s, ord, roots@, x));
                assert(member_in_bucket(bks, s, ord, roots@, y));
                let t1 = choose|t1: int|
                    0 <= t1 < bks[rt]@.len() && #[trigger] bks[rt]@[t1] == s[ord[x] as int].id;
                let t2 = choose|t2: int|
                    0 <= t2 < bks[rt]@.len() && #[trigger] bks[rt]@[t2] == s[ord[y] as int].id;
                assert(t1 != t2);
                assert(bks[rt]@.len() >= 2);
                assert(root_listed(rs, rt));
                let g = choose|g: int| 0 <= g < rs.len() && rs[g] == rt;
                assert(out@[g]@ == bks[rt]@);
                assert(in_group(out@, g, s[i].id) && in_group(out@, g, s[j].id));
            }
        }
        out
    }
}

/// Some entity of the batch carries this identifier.
pub open spec fn id_present(s: Seq<IntelEntity>, id: u128) -> bool {
    exists|i: int| 0 <= i < s.len() && s[i].id == id
}

/// Everything the fusion of a canonical group promises about its result.
pub open spec fn fusion_result_ok(
    rules: Seq<FusionRule>,
    models: Seq<ConfidenceModel>,
    s: Seq<IntelEntity>,
    now: int,
    res: FusionResult,
) -> bool {
    let strat = selected_strategy(rules, s);
    let f = res.fused_entity;
    &&& res.fusion_method == strat
    &&& f.confidence == spec_fused_confidence(s, strat, models, now)
    &&& f.confidence <= CONF_SCALE
    &&& (forall|k: int| 0 <= k < s.len() ==> f.id != s[k].id)
    &&& f.entity_type == s[0].entity_type
    &&& f.name@ == if strat == FusionStrategy::HighestConfidence {
        s[best_index(s)].name@
    } else {
        s[0].name@
    }
    &&& f.description == s[0].description
    &&& f.location == s[0].location
    &&& f.source@ == s[0].source@
    &&& f.created_at == s[0].created_at
    &&& f.updated_at == now
    &&& f.relationships@ == s[0].relationships@
    &&& (forall|i: int, j: int| 0 <= i < j < f.tags@.len() ==> f.tags@[i]@ != f.tags@[j]@)
    &&& (forall|x: Seq<char>| #[trigger] contains_view(f.tags@, x) <==> group_has_tag(s, x))
    &&& crate::models::attrs_keys_unique(f.attributes@)
    &&& (forall|key: Seq<char>| #[trigger]
        first_with_key(f.attributes@, key) == first_with_key(pairs_upto(s, s.len() as int), key))
    &&& res.source_entities@.len() == s.len()
    &&& (forall|k: int| 0 <= k < s.len() ==> res.source_entities@[k] == s[k].id)
    &&& res.confidence_delta == f.confidence - s[0].confidence
    &&& res.quality_score == spec_quality(s, now)
    &&& res.created_at == now
    &&& f.wf()
}

impl DataFusionEngine {
    /// Fuse one canonically ordered group of correlated entities into a
    /// single record.  Groups need at least two members to be eligible;
    /// smaller groups produce nothing and their entities pass through the
    /// fusion pass untouched.
    pub fn fuse_entity_group(&self, group: &Vec<IntelEntity>, now: i64) -> (r: Option<
        FusionResult,
    >)
        requires
            all_wf(group@),
            sorted_by_id(group@),
            group@.len() <= MAX_BATCH,
        ensures
            (r is Some) <==> group@.len() >= 2,
            r is Some ==> fusion_result_ok(
                self.fusion_rules@,
                self.confidence_models@,
                group@,
                now as int,
                r->0,
            ),
    {
        if group.len() < 2 {
            return Option::None;
        }

        let fusion_rule = self.find_applicable_fusion_rule(group);
        let strategy = fusion_rule.fusion_strategy;

        let confidence = self.apply_strategy(group, strategy, now);
        let name = match strategy {
            FusionStrategy::HighestConfidence => {
                let b = best_member(group);
                group[b].name.clone()
            },
            _ => group[0].name.clone(),
        };

        let tags = merge_tags(group);
        let attributes = merge_attributes(group);
        let new_id = fresh_group_id(group);
        let template = &group[0];

        let mut source_entities: Vec<u128> = Vec::new();
        let n = group.len();
        for k in 0..n
            invariant
                n == group@.len(),
                source_entities@.len() == k,
                forall|j: int| 0 <= j < k ==> source_entities@[j] == group@[j].id,
        {
            source_entities.push(group[k].id);
        }

        let quality_score = self.calculate_fusion_quality(group, now);
        assert(group@[0].wf());
        let confidence_delta: i64 = (confidence as i64) - (template.confidence as i64);

        let fused_entity = IntelEntity {
            id: new_id,
            entity_type: template.entity_type,
            name,
            description: clone_opt_string(&template.description),
            confidence,
            source: template.source.clone(),
            created_at: template.created_at,
            updated_at: now,
            tags,
            attributes,
            location: template.location,
            relationships: clone_relationships(&template.relationships),
        };

        Option::Some(
            FusionResult {
                fused_entity,
                source_entities,
                confidence_delta,
                fusion_method: strategy,
                quality_score,
                created_at: now,
            },
        )
    }
}

// ------------------------------------------------------------------
// The fusion pass over a whole batch
// ------------------------------------------------------------------

/// Two entity records agree on every observable field.  A faithful copy
/// of a record is view-equivalent to it, and every function of this
/// module treats view-equivalent records alike.
pub open spec fn view_equiv(a: IntelEntity, b: IntelEntity) -> bool {
    &&& a.id == b.id
    &&& a.entity_type == b.entity_type
    &&& a.name@ == b.name@
    &&& a.description == b.description
    &&& a.confidence == b.confidence
    &&& a.source@ == b.source@
    &&& a.created_at == b.created_at
    &&& a.updated_at == b.updated_at
    &&& a.tags@ == b.tags@
    &&& a.attributes@ == b.attributes@
    &&& a.location == b.location
    &&& a.relationships@ == b.relationships@
}

/// Pointwise view equivalence of two groups.
pub open spec fn seq_view_equiv(s1: Seq<IntelEntity>, s2: Seq<IntelEntity>) -> bool {
    &&& s1.len() == s2.len()
    &&& forall|t: int| 0 <= t < s1.len() ==> #[trigger] view_equiv(s1[t], s2[t])
}

proof fn lemma_seq_view_equiv_drop_last(s1: Seq<IntelEntity>, s2: Seq<IntelEntity>)
    requires
        seq_view_equiv(s1, s2),
        s1.len() > 0,
    ensures
        seq_view_equiv(s1.drop_last(), s2.drop_last()),
        view_equiv(s1.last(), s2.last()),
{
    assert forall|t: int|
        0 <= t < s1.drop_last().len() implies #[trigger] view_equiv(
        s1.drop_last()[t],
        s2.drop_last()[t],
    ) by {
        assert(view_equiv(s1[t], s2[t]));
    }
    assert(view_equiv(s1[s1.len() - 1], s2[s2.len() - 1]));
}

proof fn lemma_sum_conf_equiv(s1: Seq<IntelEntity>, s2: Seq<IntelEntity>)
    requires
        seq_view_equiv(s1, s2),
    ensures
        sum_conf(s1) == sum_conf(s2),
    decreases s1.len(),
{
    if s1.len() > 0 {
        lemma_seq_view_equiv_drop_last(s1, s2);
        lemma_sum_conf_equiv(s1.drop_last(), s2.drop_last());
    }
}

proof fn lemma_weighted_sums_equiv(
    s1: Seq<IntelEntity>,
    s2: Seq<IntelEntity>,
    models: Seq<ConfidenceModel>,
)
    requires
        seq_view_equiv(s1, s2),
    ensures
        weighted_conf_sum(s1, models) == weighted_conf_sum(s2, models),
        weight_sum(s1, models) == weight_sum(s2, models),
    decreases s1.len(),
{
    if s1.len() > 0 {
        lemma_seq_view_equiv_drop_last(s1, s2);
        lemma_weighted_sums_equiv(s1.drop_last(), s2.drop_last(), models);
    }
}

proof fn lemma_decay_sums_equiv(s1: Seq<IntelEntity>, s2: Seq<IntelEntity>, now: int)
    requires
        seq_view_equiv(s1, s2),
    ensures
        decay_conf_sum(s1, now) == decay_conf_sum(s2, now),
        decay_weight_sum(s1, now) == decay_weight_sum(s2, now),
    decreases s1.len(),
{
    if s1.len() > 0 {
        lemma_seq_view_equiv_drop_last(s1, s2);
        lemma_decay_sums_equiv(s1.drop_last(), s2.drop_last(), now);
    }
}

proof fn lemma_best_index_equiv(s1: Seq<IntelEntity>, s2: Seq<IntelEntity>)
    requires
        seq_view_equiv(s1, s2),
        s1.len() >= 1,
    ensures
        best_index(s1) == best_index(s2),
        s1[best_index(s1)].confidence == s2[best_index(s2)].confidence,
        s1[best_index(s1)].name@ == s2[best_index(s2)].name@,
    decreases s1.len(),
{
    lemma_best_index_range(s1);
    lemma_best_index_range(s2);
    if s1.len() > 1 {
        lemma_seq_view_equiv_drop_last(s1, s2);
        lemma_best_index_equiv(s1.drop_last(), s2.drop_last());
        let b = best_index(s1.drop_last());
        lemma_best_index_range(s1.drop_last());
        assert(view_equiv(s1[b], s2[b]));
    }
    assert(view_equiv(s1[best_index(s1)], s2[best_index(s2)]));
}

proof fn lemma_selected_index_equiv(
    rules: Seq<FusionRule>,
    s1: Seq<IntelEntity>,
    s2: Seq<IntelEntity>,
    i: int,
)
    requires
        seq_view_equiv(s1, s2),
        0 <= i,
    ensures
        selected_index(rules, s1, i) == selected_index(rules, s2, i),
    decreases rules.len() - i,
{
    if i < rules.len() {
        assert forall|r: FusionRule| #[trigger]
            rule_matches(r, s1) == rule_matches(r, s2) by {
            if rule_matches(r, s1) {
                let (x, j) = choose|x: int, j: int|
                    0 <= x < r.entity_types@.len() && 0 <= j < s1.len() && r.entity_types@[x]
                        == s1[j].entity_type;
                assert(view_equiv(s1[j], s2[j]));
                assert(r.entity_types@[x] == s2[j].entity_type);
            }
            if rule_matches(r, s2) {
                let (x, j) = choose|x: int, j: int|
                    0 <= x < r.entity_types@.len() && 0 <= j < s2.len() && r.entity_types@[x]
                        == s2[j].entity_type;
                assert(view_equiv(s1[j], s2[j]));
                assert(r.entity_types@[x] == s1[j].entity_type);
            }
        }
        lemma_selected_index_equiv(rules, s1, s2, i + 1);
    }
}

proof fn lemma_pairs_upto_equiv(s1: Seq<IntelEntity>, s2: Seq<IntelEntity>, k: int)
    requires
        seq_view_equiv(s1, s2),
        k <= s1.len(),
    ensures
        pairs_upto(s1, k) == pairs_upto(s2, k),
    decreases k,
{
    if k > 0 {
        lemma_pairs_upto_equiv(s1, s2, k - 1);
        assert(view_equiv(s1[k - 1], s2[k - 1]));
    }
}

proof fn lemma_quality_sums_equiv(s1: Seq<IntelEntity>, s2: Seq<IntelEntity>, now: int, mean: int, k: int)
    requires
        seq_view_equiv(s1, s2),
        k <= s1.len(),
    ensures
        distinct_sources_upto(s1, k) == distinct_sources_upto(s2, k),
        sq_dev_sum(s1, mean, k) == sq_dev_sum(s2, mean, k),
        age_sum_upto(s1, now, k) == age_sum_upto(s2, now, k),
    decreases k,
{
    if k > 0 {
        lemma_quality_sums_equiv(s1, s2, now, mean, k - 1);
        assert(view_equiv(s1[k - 1], s2[k - 1]));
        assert forall|j: int|
            0 <= j < k - 1 implies (#[trigger] s1[j].source@ == s1[k - 1].source@) == (s2[j].source@
            == s2[k - 1].source@) by {
            assert(view_equiv(s1[j], s2[j]));
        }
        if exists|j: int| 0 <= j < k - 1 && #[trigger] s1[j].source@ == s1[k - 1].source@ {
            let j = choose|j: int| 0 <= j < k - 1 && #[trigger] s1[j].source@ == s1[k - 1].source@;
            assert(s2[j].source@ == s2[k - 1].source@);
        }
        if exists|j: int| 0 <= j < k - 1 && #[trigger] s2[j].source@ == s2[k - 1].source@ {
            let j = choose|j: int| 0 <= j < k - 1 && #[trigger] s2[j].source@ == s2[k - 1].source@;
            assert(s1[j].source@ == s1[k - 1].source@);
        }
    }
}

proof fn lemma_group_has_tag_equiv(s1: Seq<IntelEntity>, s2: Seq<IntelEntity>, x: Seq<char>)
    requires
        seq_view_equiv(s1, s2),
    ensures
        group_has_tag(s1, x) == group_has_tag(s2, x),
{
    if group_has_tag(s1, x) {
        let k = choose|k: int| 0 <= k < s1.len() && contains_view(s1[k].tags@, x);
        assert(view_equiv(s1[k], s2[k]));
        assert(contains_view(s2[k].tags@, x));
    }
    if group_has_tag(s2, x) {
        let k = choose|k: int| 0 <= k < s2.len() && contains_view(s2[k].tags@, x);
        assert(view_equiv(s1[k], s2[k]));
        assert(contains_view(s1[k].tags@, x));
    }
}

/// A fusion result for one group is equally a fusion result for any
/// view-equivalent group.
proof fn lemma_fusion_result_ok_equiv(
    rules: Seq<FusionRule>,
    models: Seq<ConfidenceModel>,
    s1: Seq<IntelEntity>,
    s2: Seq<IntelEntity>,
    now: int,
    res: FusionResult,
)
    requires
        seq_view_equiv(s1, s2),
        s1.len() >= 1,
        fusion_result_ok(rules, models, s1, now, res),
    ensures
        fusion_result_ok(rules, models, s2, now, res),
{
    lemma_selected_index_equiv(rules, s1, s2, 0);
    lemma_sum_conf_equiv(s1, s2);
    lemma_weighted_sums_equiv(s1, s2, models);
    lemma_decay_sums_equiv(s1, s2, now);
    lemma_best_index_equiv(s1, s2);
    lemma_pairs_upto_equiv(s1, s2, s1.len() as int);
    lemma_quality_sums_equiv(s1, s2, now, sum_conf(s1) / (s1.len() as int), s1.len() as int);
    assert(view_equiv(s1[0], s2[0]));
    assert forall|k: int| 0 <= k < s2.len() implies res.fused_entity.id != s2[k].id by {
        assert(view_equiv(s1[k], s2[k]));
    }
    assert forall|k: int| 0 <= k < s2.len() implies res.source_entities@[k] == s2[k].id by {
        assert(view_equiv(s1[k], s2[k]));
    }
    assert forall|x: Seq<char>| #[trigger]
        contains_view(res.fused_entity.tags@, x) <==> group_has_tag(s2, x) by {
        lemma_group_has_tag_equiv(s1, s2, x);
    }
}

/// The tags of a fused record cover every tag of every consumed member:
/// the union the merge builds loses nothing.
pub proof fn lemma_fused_tags_superset(
    rules: Seq<FusionRule>,
    models: Seq<ConfidenceModel>,
    s: Seq<IntelEntity>,
    now: int,
    res: FusionResult,
    x: Seq<char>,
)
    requires
        fusion_result_ok(rules, models, s, now, res),
        group_has_tag(s, x),
    ensures
        contains_view(res.fused_entity.tags@, x),
{
}

/// The entity of the batch carrying the given identifier.
pub open spec fn lookup_id(s: Seq<IntelEntity>, id: u128) -> IntelEntity {
    s[choose|i: int| 0 <= i < s.len() && s[i].id == id]
}

/// The batch entities carrying the given identifiers, in that order.
pub open spec fn entities_of(s: Seq<IntelEntity>, ids: Seq<u128>) -> Seq<IntelEntity> {
    Seq::new(ids.len(), |t: int| lookup_id(s, ids[t]))
}

/// Whether the identifier list contains `id`.
pub open spec fn ids_contain(ids: Seq<u128>, id: u128) -> bool {
    exists|t: int| 0 <= t < ids.len() && ids[t] == id
}

/// Everything one fusion pass promises: each emitted result consumes at
/// least two entities of the batch, listed in ascending identifier
/// order; no entity is consumed twice; each result is the faithful
/// fusion of exactly the entities it names; and every pair correlating
/// at or above the threshold is consumed into one common result.
pub open spec fn fusion_pass_ok(
    rules: Seq<FusionRule>,
    models: Seq<ConfidenceModel>,
    s: Seq<IntelEntity>,
    d: Seq<Vec<Option<u64>>>,
    now: int,
    results: Seq<FusionResult>,
) -> bool {
    &&& (forall|k: int| 0 <= k < results.len() ==> #[trigger] results[k].source_entities@.len()
        >= 2)
    &&& (forall|k: int, t1: int, t2: int|
        0 <= k < results.len() && 0 <= t1 < t2 < results[k].source_entities@.len()
            ==> results[k].source_entities@[t1] < results[k].source_entities@[t2])
    &&& (forall|k: int, t: int|
        0 <= k < results.len() && 0 <= t < results[k].source_entities@.len() ==> id_present(
            s,
            #[trigger] results[k].source_entities@[t],
        ))
    &&& (forall|k1: int, k2: int, t1: int, t2: int|
        0 <= k1 < results.len() && 0 <= k2 < results.len() && k1 != k2 && 0 <= t1 < results[k1].source_entities@.len()
            && 0 <= t2 < results[k2].source_entities@.len() ==> results[k1].source_entities@[t1]
            != results[k2].source_entities@[t2])
    &&& (forall|k: int|
        0 <= k < results.len() ==> fusion_result_ok(
            rules,
            models,
            entities_of(s, (#[trigger] results[k]).source_entities@),
            now,
            results[k],
        ))
    &&& (forall|i: int, j: int|
        0 <= i < s.len() && 0 <= j < s.len() && s[i].id < s[j].id && correlated(s, d, i, j)
            ==> exists|k: int|
            0 <= k < results.len() && ids_contain(
                (#[trigger] results[k]).source_entities@,
                s[i].id,
            ) && ids_contain(results[k].source_entities@, s[j].id))
}

/// Copy a vector of attribute pairs.
pub(crate) fn clone_pairs(v: &Vec<(String, String)>) -> (r: Vec<(String, String)>)
    ensures
        r@ == v@,
{
    let mut r: Vec<(String, String)> = Vec::new();
    let n = v.len();
    for k in 0..n
        invariant
            n == v@.len(),
            r@ =~= v@.take(k as int),
    {
        r.push((v[k].0.clone(), v[k].1.clone()));
        assert(r@.last() == v@[k as int]);
        assert(r@ =~= v@.take(k + 1));
    }
    assert(r@ =~= v@);
    r
}

/// Faithful copy of an entity record.
pub(crate) fn clone_entity(e: &IntelEntity) -> (c: IntelEntity)
    ensures
        view_equiv(c, *e),
{
    IntelEntity {
        id: e.id,
        entity_type: e.entity_type,
        name: e.name.clone(),
        description: clone_opt_string(&e.description),
        confidence: e.confidence,
        source: e.source.clone(),
        created_at: e.created_at,
        updated_at: e.updated_at,
        tags: clone_strings(&e.tags),
        attributes: clone_pairs(&e.attributes),
        location: e.location,
        relationships: clone_relationships(&e.relationships),
    }
}

/// Position of the entity carrying `id`, if any.
fn find_by_id(entities: &Vec<IntelEntity>, id: u128) -> (r: Option<usize>)
    ensures
        r is Some ==> r->0 < entities@.len() && entities@[r->0 as int].id == id,
        r is None ==> !id_present(entities@, id),
{
    let n = entities.len();
    for i in 0..n
        invariant
            n == entities@.len(),
            forall|t: int| 0 <= t < i ==> entities@[t].id != id,
    {
        if entities[i].id == id {
            return Option::Some(i);
        }
    }
    Option::None
}

/// Identifiers of the first `k` groups, concatenated.
spec fn concat_ids(gps: Seq<Vec<u128>>, k: int) -> Seq<u128>
    decreases k,
{
    if k <= 0 {
        Seq::empty()
    } else {
        concat_ids(gps, k - 1) + gps[k - 1]@
    }
}

/// Every concatenated identifier comes from one of the first `k` groups.
proof fn lemma_concat_ids_member(gps: Seq<Vec<u128>>, k: int, p: int)
    requires
        0 <= p < concat_ids(gps, k).len(),
    ensures
        exists|g2: int, t: int|
            0 <= g2 < k && 0 <= t < gps[g2]@.len() && #[trigger] gps[g2]@[t] == concat_ids(
                gps,
                k,
            )[p],
    decreases k,
{
    if k > 0 {
        let prefix = concat_ids(gps, k - 1);
        if p < prefix.len() {
            lemma_concat_ids_member(gps, k - 1, p);
            let (g2, t) = choose|g2: int, t: int|
                0 <= g2 < k - 1 && 0 <= t < gps[g2]@.len() && #[trigger] gps[g2]@[t]
                    == prefix[p];
            assert(gps[g2]@[t] == concat_ids(gps, k)[p]);
        } else {
            assert(gps[k - 1]@[p - prefix.len()] == concat_ids(gps, k)[p]);
        }
    }
}

/// Whether the two identifier lists share an element.
fn shares_id(a: &Vec<u128>, b: &Vec<u128>) -> (r: bool)
    ensures
        r == exists|t1: int, t2: int|
            0 <= t1 < a@.len() && 0 <= t2 < b@.len() && a@[t1] == b@[t2],
{
    let na = a.len();
    let nb = b.len();
    for t1 in 0..na
        invariant
            na == a@.len(),
            nb == b@.len(),
            forall|x: int, y: int| 0 <= x < t1 && 0 <= y < nb ==> a@[x] != b@[y],
    {
        for t2 in 0..nb
            invariant
                na == a@.len(),
                nb == b@.len(),
                t1 < na,
                forall|y: int| 0 <= y < t2 ==> a@[t1 as int] != b@[y],
        {
            if a[t1] == b[t2] {
                return true;
            }
        }
    }
    false
}

impl DataFusionEngine {
    /// One fusion pass over a batch, at a caller-chosen time.  The batch
    /// is deduplicated by identity upstream and bounded by the caller
    /// (quadratic pairwise scoring is the admission-control cost);
    /// `geo_distances_mm` carries the pairwise great-circle distances
    /// from the geospatial collaborator.
    #[verifier::rlimit(100)]
    pub fn fuse_entities_at(
        &self,
        entities: &Vec<IntelEntity>,
        geo_distances_mm: &Vec<Vec<Option<u64>>>,
        now: i64,
    ) -> (r: Result<Vec<FusionResult>, crate::error::Error>)
        requires
            all_wf(entities@),
            distinct_ids(entities@),
            entities@.len() <= MAX_BATCH,
            distance_table_ok(entities@, geo_distances_mm@),
        ensures
            r is Ok,
            fusion_pass_ok(
                self.fusion_rules@,
                self.confidence_models@,
                entities@,
                geo_distances_mm@,
                now as int,
                r->Ok_0@,
            ),
    {
        let mut results: Vec<FusionResult> = Vec::new();
        if entities.len() < 2 {
            return Result::Ok(results);
        }

        let groups = self.find_correlation_groups(entities, geo_distances_mm, now);
        let mut processed: Vec<u128> = Vec::new();
        let ghost s = entities@;
        let ghost gps = groups@;

        let ng = groups.len();
        for g in 0..ng
            invariant
                self.wf() == self.wf(),
                s == entities@,
                gps == groups@,
                ng == groups@.len(),
                all_wf(s),
                distinct_ids(s),
                s.len() <= MAX_BATCH,
                forall|g2: int| 0 <= g2 < ng ==> #[trigger] gps[g2]@.len() >= 2,
                forall|g2: int| 0 <= g2 < ng ==> #[trigger] gps[g2]@.len() <= s.len(),
                forall|g2: int, t1: int, t2: int|
                    0 <= g2 < ng && 0 <= t1 < t2 < gps[g2]@.len() ==> gps[g2]@[t1] < gps[g2]@[t2],
                forall|g2: int, t: int|
                    0 <= g2 < ng && 0 <= t < gps[g2]@.len() ==> id_present(s, gps[g2]@[t]),
                forall|g1: int, g2: int, t1: int, t2: int|
                    0 <= g1 < ng && 0 <= g2 < ng && g1 != g2 && 0 <= t1 < gps[g1]@.len() && 0 <= t2
                        < gps[g2]@.len() ==> gps[g1]@[t1] != gps[g2]@[t2],
                results@.len() == g,
                forall|k: int|
                    0 <= k < g ==> (#[trigger] results@[k]).source_entities@ == gps[k]@,
                forall|k: int|
                    0 <= k < g ==> fusion_result_ok(
                        self.fusion_rules@,
                        self.confidence_models@,
                        entities_of(s, gps[k]@),
                        now as int,
                        #[trigger] results@[k],
                    ),
                processed@ == concat_ids(gps, g as int),
        {
            let group_ids = &groups[g];
            if group_ids.len() < 2 {
                // Unreachable: the grouper only emits groups of two or more.
                proof {
                    assert(gps[g as int]@.len() >= 2);
                    assert(false);
                }
            } else if shares_id(group_ids, &processed) {
                // Unreachable: groups are pairwise disjoint, so no member
                // of this group was consumed by an earlier one.
                proof {
                    let (t1, t2) = choose|t1: int, t2: int|
                        0 <= t1 < group_ids@.len() && 0 <= t2 < processed@.len()
                            && group_ids@[t1] == processed@[t2];
                    lemma_concat_ids_member(gps, g as int, t2);
                    let (g2, t) = choose|g2: int, t: int|
                        0 <= g2 < g && 0 <= t < gps[g2]@.len() && #[trigger] gps[g2]@[t]
                            == concat_ids(gps, g as int)[t2];
                    assert(gps[g as int]@[t1] != gps[g2]@[t]);
                    assert(false);
                }
            } else {

            // Materialize the group's entities, in canonical order.
            let m = group_ids.len();
            let mut members: Vec<IntelEntity> = Vec::new();
            for t in 0..m
                invariant
                    s == entities@,
                    gps == groups@,
                    distinct_ids(s),
                    g < ng == gps.len(),
                    m == gps[g as int]@.len(),
                    group_ids@ == gps[g as int]@,
                    forall|g2: int, t2: int|
                        0 <= g2 < ng && 0 <= t2 < gps[g2]@.len() ==> id_present(s, gps[g2]@[t2]),
                    members@.len() == t,
                    forall|t2: int|
                        0 <= t2 < t ==> #[trigger] view_equiv(
                            members@[t2],
                            lookup_id(s, gps[g as int]@[t2]),
                        ),
                    forall|t2: int|
                        0 <= t2 < t ==> #[trigger] members@[t2].id == gps[g as int]@[t2],
            {
                let id = group_ids[t];
                match find_by_id(entities, id) {
                    Option::Some(i) => {
                        members.push(clone_entity(&entities[i]));
                        proof {
                            assert(id_present(s, id));
                            let i2 = choose|i2: int| 0 <= i2 < s.len() && s[i2].id == id;
                            if i2 != i as int {
                                assert(s[i2].id != s[i as int].id);
                            }
                            assert(lookup_id(s, id) == s[i as int]);
                        }
                    },
                    Option::None => {
                        // Unreachable: every group member comes from the
                        // batch; a missing identifier would be an internal
                        // invariant violation.
                        proof {
                            assert(id_present(s, gps[g as int]@[t as int]));
                            assert(false);
                        }
                        return Result::Err(
                            crate::error::Error::Internal(
                                "entity referenced by a correlation group is missing from the batch".to_owned(),
                            ),
                        );
                    },
                }
            }

            proof {
                assert(all_wf(members@)) by {
                    assert forall|t2: int| 0 <= t2 < members@.len() implies #[trigger] members@[t2].wf() by {
                        let id = gps[g as int]@[t2];
                        assert(id_present(s, id));
                        assert(view_equiv(members@[t2], lookup_id(s, id)));
                        let i2 = choose|i2: int| 0 <= i2 < s.len() && s[i2].id == id;
                        assert(lookup_id(s, id) == s[i2]);
                        assert(s[i2].wf());
                        assert(view_equiv(members@[t2], s[i2]));
                    }
                }
                assert(sorted_by_id(members@));
            }

            let fused = self.fuse_entity_group(&members, now);
            match fused {
                Option::Some(res) => {
                    proof {
                        let ids = gps[g as int]@;
                        assert(res.source_entities@ =~= ids) by {
                            assert forall|t2: int|
                                0 <= t2 < ids.len() implies res.source_entities@[t2]
                                == ids[t2] by {
                                assert(res.source_entities@[t2] == members@[t2].id);
                            }
                        }
                        let s2 = entities_of(s, ids);
                        assert(seq_view_equiv(members@, s2)) by {
                            assert forall|t2: int|
                                0 <= t2 < members@.len() implies #[trigger] view_equiv(
                                members@[t2],
                                s2[t2],
                            ) by {
                                assert(s2[t2] == lookup_id(s, ids[t2]));
                                assert(view_equiv(members@[t2], lookup_id(s, ids[t2])));
                            }
                        }
                        lemma_fusion_result_ok_equiv(
                            self.fusion_rules@,
                            self.confidence_models@,
                            members@,
                            s2,
                            now as int,
                            res,
                        );
                    }
                    results.push(res);
                    let ghost pr0 = processed@;
                    for t in 0..m
                        invariant
                            gps == groups@,
                            g < gps.len(),
                            m == gps[g as int]@.len(),
                            group_ids@ == gps[g as int]@,
                            processed@.len() == pr0.len() + t,
                            forall|p: int| 0 <= p < pr0.len() ==> processed@[p] == pr0[p],
                            forall|p: int|
                                pr0.len() <= p < processed@.len() ==> #[trigger] processed@[p]
                                    == gps[g as int]@[p - pr0.len()],
                    {
                        processed.push(group_ids[t]);
                    }
                    proof {
                        assert(processed@ =~= pr0 + gps[g as int]@);
                        assert(processed@ == concat_ids(gps, g + 1));
                    }
                },
                Option::None => {
                    proof {
                        assert(members@.len() >= 2);
                        assert(false);
                    }
                },
            }
            }
        }

        proof {
            let d = geo_distances_mm@;
            assert forall|i: int, j: int|
                0 <= i < s.len() && 0 <= j < s.len() && s[i].id < s[j].id && correlated(s, d, i, j)
                    implies exists|k: int|
                    0 <= k < results@.len() && ids_contain(
                        (#[trigger] results@[k]).source_entities@,
                        s[i].id,
                    ) && ids_contain(results@[k].source_entities@, s[j].id) by {
                let gx = choose|gx: int|
                    0 <= gx < gps.len() && in_group(gps, gx, s[i].id) && in_group(
                        gps,
                        gx,
                        s[j].id,
                    );
                assert(results@[gx].source_entities@ == gps[gx]@);
                assert(ids_contain(results@[gx].source_entities@, s[i].id));
                assert(ids_contain(results@[gx].source_entities@, s[j].id));
            }
        }
        Result::Ok(results)
    }

    /// One fusion pass over a batch, stamped with the current time.
    pub fn fuse_entities(
        &self,
        entities: &Vec<IntelEntity>,
        geo_distances_mm: &Vec<Vec<Option<u64>>>,
    ) -> (r: Result<Vec<FusionResult>, crate::error::Error>)
        requires
            all_wf(entities@),
            distinct_ids(entities@),
            entities@.len() <= MAX_BATCH,
            distance_table_ok(entities@, geo_distances_mm@),
        ensures
            r is Ok,
            exists|t: i64|
                #[trigger] fusion_pass_ok(
                    self.fusion_rules@,
                    self.confidence_models@,
                    entities@,
                    geo_distances_mm@,
                    t as int,
                    r->Ok_0@,
                ),
    {
        let now = now_seconds();
        let r = self.fuse_entities_at(entities, geo_distances_mm, now);
        proof {
            assert(fusion_pass_ok(
                self.fusion_rules@,
                self.confidence_models@,
                entities@,
                geo_distances_mm@,
                now as int,
                r->Ok_0@,
            ));
        }
        r
    }
}

} // verus!
