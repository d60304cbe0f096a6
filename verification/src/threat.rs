//! Threat intelligence processing: correlation rules over a store of
//! indicators, rule-condition evaluation, correlation scoring, statistics
//! and search.
//!
//! Fetching indicators from remote sources is network plumbing and lives
//! in the surrounding application; the store ingests already-parsed
//! indicator values.

use vstd::prelude::*;

use crate::fusion::contains_view;
use crate::models::{ThreatIndicator, ThreatSeverity, ThreatType};
use crate::text::str_eq;
use crate::trusted::lower_of;
use crate::CONF_SCALE;

verus! {

/// Most conditions a single correlation rule may carry; keeps the
/// weighted vote inside machine arithmetic.
pub const MAX_RULE_CONDITIONS: usize = 1000;

#[derive(Debug, Clone, Copy, PartialEq, Eq, Structural)]
pub enum ThreatSourceType {
    Commercial,
    OpenSource,
    Government,
    Community,
    Internal,
}

#[derive(Debug, Clone, Copy, PartialEq, Eq, Structural)]
pub enum CorrelationType {
    /// Time-based correlation
    Temporal,
    /// Geographic correlation
    Spatial,
    /// Pattern-based correlation
    Behavioral,
    /// Actor correlation
    Attribution,
    /// Campaign correlation
    Campaign,
}

#[derive(Debug, Clone, Copy, PartialEq, Eq, Structural)]
pub enum ConditionOperator {
    Equals,
    Contains,
    Matches,
    GreaterThan,
    LessThan,
    InTimeRange,
    InGeoRadius,
}

/// Value a correlation condition compares against.  The configuration
/// layer parses free-form values into these typed forms before they
/// reach the engine.
#[derive(Debug, Clone)]
pub enum ConditionValue {
    Threat(ThreatType),
    Severity(ThreatSeverity),
    Text(String),
}

#[derive(Debug, Clone)]
pub struct CorrelationCondition {
    pub field: String,
    pub operator: ConditionOperator,
    pub value: ConditionValue,
    pub weight: u64,
}

#[derive(Debug, Clone, Copy, PartialEq, Eq, Structural)]
pub enum ActionType {
    CreateAlert,
    UpdateThreatLevel,
    NotifyAnalyst,
    CreateCase,
    BlockIndicator,
    EnrichIndicator,
}

#[derive(Debug, Clone)]
pub struct CorrelationAction {
    pub action_type: ActionType,
    pub parameters: Vec<(String, String)>,
}

/// Correlation rule for threat indicators.
#[derive(Debug, Clone)]
pub struct CorrelationRule {
    pub id: u128,
    pub name: String,
    pub description: String,
    pub rule_type: CorrelationType,
    pub conditions: Vec<CorrelationCondition>,
    pub actions: Vec<CorrelationAction>,
    pub enabled: bool,
    pub created_at: i64,
}

/// Threat correlation result.
#[derive(Debug, Clone)]
pub struct CorrelationResult {
    pub rule_id: u128,
    pub matched_indicators: Vec<u128>,
    pub correlation_score: u64,
    pub created_at: i64,
    pub actions_taken: Vec<CorrelationAction>,
}

/// Threat query for searching indicators.
#[derive(Debug, Clone)]
pub struct ThreatQuery {
    pub threat_types: Option<Vec<ThreatType>>,
    pub severities: Option<Vec<ThreatSeverity>>,
    pub sources: Option<Vec<String>>,
    pub value_pattern: Option<String>,
    pub date_range: Option<(i64, i64)>,
    pub min_confidence: Option<u64>,
}

/// Threat intelligence statistics.
#[derive(Debug, Clone)]
pub struct ThreatStatistics {
    pub total_indicators: usize,
    pub recent_indicators: usize,
    pub threat_types: Vec<(ThreatType, usize)>,
    pub severities: Vec<(ThreatSeverity, usize)>,
    pub sources: Vec<(String, usize)>,
}

// ------------------------------------------------------------------
// Condition evaluation
// ------------------------------------------------------------------

/// What one correlation condition decides for one indicator: the
/// condition's field name selects the indicator field, the operator and
/// the typed value do the comparison, and any combination without a
/// defined meaning evaluates to false.  Time-range checks accept
/// unconditionally (the range bounds are not yet part of the condition).
pub open spec fn spec_eval_condition(c: CorrelationCondition, ind: ThreatIndicator) -> bool {
    if c.field@ == "threat_type"@ {
        match (c.operator, c.value) {
            (ConditionOperator::Equals, ConditionValue::Threat(t)) => ind.threat_type == t,
            _ => false,
        }
    } else if c.field@ == "severity"@ {
        match (c.operator, c.value) {
            (ConditionOperator::Equals, ConditionValue::Severity(v)) => ind.severity == v,
            (ConditionOperator::GreaterThan, ConditionValue::Severity(v)) => ind.severity.spec_rank()
                >= v.spec_rank(),
            _ => false,
        }
    } else if c.field@ == "mitre_tactics"@ {
        match (c.operator, c.value) {
            (ConditionOperator::Contains, ConditionValue::Text(s)) => contains_view(
                ind.mitre_tactics@,
                s@,
            ),
            _ => false,
        }
    } else if c.field@ == "first_seen"@ {
        c.operator == ConditionOperator::InTimeRange
    } else {
        false
    }
}

/// Whether one of the strings equals `x`.
fn contains_string(v: &Vec<String>, x: &String) -> (r: bool)
    ensures
        r == contains_view(v@, x@),
{
    let n = v.len();
    for k in 0..n
        invariant
            n == v@.len(),
            forall|t: int| 0 <= t < k ==> v@[t]@ != x@,
    {
        if v[k].eq(x) {
            return true;
        }
    }
    false
}

/// Sum of all condition weights.
pub open spec fn cond_weight_total(cs: Seq<CorrelationCondition>) -> int
    decreases cs.len(),
{
    if cs.len() == 0 {
        0
    } else {
        cond_weight_total(cs.drop_last()) + cs.last().weight
    }
}

/// Sum of the weights of the conditions the indicator satisfies.
pub open spec fn cond_weight_matched(cs: Seq<CorrelationCondition>, ind: ThreatIndicator) -> int
    decreases cs.len(),
{
    if cs.len() == 0 {
        0
    } else {
        cond_weight_matched(cs.drop_last(), ind) + if spec_eval_condition(cs.last(), ind) {
            cs.last().weight as int
        } else {
            0
        }
    }
}

/// An indicator matches a rule when the satisfied conditions carry at
/// least seventy percent of the total condition weight; a rule whose
/// total weight is zero matches nothing.
pub open spec fn indicator_matches_rule(rule: CorrelationRule, ind: ThreatIndicator) -> bool {
    let total = cond_weight_total(rule.conditions@);
    let matched = cond_weight_matched(rule.conditions@, ind);
    total > 0 && 10 * matched >= 7 * total
}

/// Identifiers of the first `k` stored indicators that match the rule.
pub open spec fn matched_ids(inds: Seq<ThreatIndicator>, rule: CorrelationRule, k: int) -> Seq<
    u128,
>
    decreases k,
{
    if k <= 0 {
        Seq::empty()
    } else if indicator_matches_rule(rule, inds[k - 1]) {
        matched_ids(inds, rule, k - 1).push(inds[k - 1].id)
    } else {
        matched_ids(inds, rule, k - 1)
    }
}

/// An indicator is present in the store.
pub open spec fn ind_present(inds: Seq<ThreatIndicator>, id: u128) -> bool {
    exists|i: int| 0 <= i < inds.len() && inds[i].id == id
}

/// Confidence of the stored indicator carrying `id`.
pub open spec fn ind_conf(inds: Seq<ThreatIndicator>, id: u128) -> int {
    inds[choose|i: int| 0 <= i < inds.len() && inds[i].id == id].confidence as int
}

/// Sum of the stored confidences of the first `k` listed identifiers,
/// and how many of them are present in the store.
pub open spec fn listed_conf_sum(inds: Seq<ThreatIndicator>, ids: Seq<u128>, k: int) -> (int, int)
    decreases k,
{
    if k <= 0 {
        (0, 0)
    } else {
        let (s, c) = listed_conf_sum(inds, ids, k - 1);
        if ind_present(inds, ids[k - 1]) {
            (s + ind_conf(inds, ids[k - 1]), c + 1)
        } else {
            (s, c)
        }
    }
}

/// Fixed-point bonus a rule type contributes to a correlation score.
pub open spec fn rule_type_bonus(t: CorrelationType) -> int {
    match t {
        CorrelationType::Attribution => 300_000,
        CorrelationType::Campaign => 250_000,
        CorrelationType::Behavioral => 200_000,
        CorrelationType::Temporal => 150_000,
        CorrelationType::Spatial => 100_000,
    }
}

/// Correlation score of a set of matched indicators under a rule: a base
/// that grows with the number of matches, the rule-type bonus, and
/// thirty percent of the matched indicators' average confidence, capped
/// at one.
pub open spec fn spec_correlation_score(
    inds: Seq<ThreatIndicator>,
    rule: CorrelationRule,
    ids: Seq<u128>,
) -> int {
    let base = if ids.len() >= 1 {
        (ids.len() as int - 1) * 200_000
    } else {
        0
    };
    let bonus = rule_type_bonus(rule.rule_type);
    let (csum, cvalid) = listed_conf_sum(inds, ids, ids.len() as int);
    let avg_part = if cvalid > 0 {
        (csum / cvalid) * 300_000 / (CONF_SCALE as int)
    } else {
        0
    };
    let raw = base + bonus + avg_part;
    if raw > CONF_SCALE {
        CONF_SCALE as int
    } else {
        raw
    }
}

/// Threat intelligence engine for processing and correlating threat data.
///
/// Remote sources and their HTTP client are owned by the surrounding
/// application; this store holds what they fetched.
#[derive(Debug)]
pub struct ThreatIntelEngine {
    pub indicators: Vec<ThreatIndicator>,
    pub correlation_rules: Vec<CorrelationRule>,
}

impl ThreatIntelEngine {
    /// Stored indicator identifiers are unique, confidences are valid,
    /// and every rule's condition list is bounded.
    pub open spec fn wf(&self) -> bool {
        &&& (forall|i: int, j: int|
            0 <= i < j < self.indicators@.len() ==> self.indicators@[i].id
                != self.indicators@[j].id)
        &&& (forall|i: int|
            0 <= i < self.indicators@.len() ==> (#[trigger] self.indicators@[i]).confidence
                <= CONF_SCALE)
        &&& (forall|r: int|
            0 <= r < self.correlation_rules@.len()
                ==> (#[trigger] self.correlation_rules@[r]).conditions@.len()
                <= MAX_RULE_CONDITIONS)
    }

    /// Create a new threat intelligence engine.
    pub fn new() -> (engine: ThreatIntelEngine)
        ensures
            engine.indicators@.len() == 0,
            engine.correlation_rules@.len() == 0,
            engine.wf(),
    {
        ThreatIntelEngine { indicators: Vec::new(), correlation_rules: Vec::new() }
    }

    /// Append a correlation rule.

    pub fn add_correlation_rule(&mut self, rule: CorrelationRule)
        requires
            old(self).wf(),
            rule.conditions@.len() <= MAX_RULE_CONDITIONS,
        ensures
            final(self).wf(),
            final(self).correlation_rules@ == old(self).correlation_rules@.push(rule),
            final(self).indicators == old(self).indicators,
    {
        self.correlation_rules.push(rule);
    }

    /// Store one freshly fetched indicator, replacing any earlier
    /// indicator with the same identifier.
    pub fn add_indicator(&mut self, indicator: ThreatIndicator)
        requires
            old(self).wf(),
            indicator.confidence <= CONF_SCALE,
        ensures
            final(self).wf(),
            final(self).correlation_rules == old(self).correlation_rules,
            ind_present(final(self).indicators@, indicator.id),
            exists|i: int|
                0 <= i < final(self).indicators@.len() && final(self).indicators@[i]
                    == indicator,
            forall|id: u128|
                #[trigger] ind_present(final(self).indicators@, id) == (ind_present(
                    old(self).indicators@,
                    id,
                ) || id == indicator.id),
    {
        let n = self.indicators.len();
        let mut k: usize = 0;
        while k < n
            invariant
                n == self.indicators@.len(),
                k <= n,
                forall|j: int| 0 <= j < k ==> self.indicators@[j].id != indicator.id,
                *self == *old(self),
                old(self).wf(),
                indicator.confidence <= CONF_SCALE,
            decreases n - k,
        {
            if self.indicators[k].id == indicator.id {
                let ghost pre = self.indicators@;
                let ghost kk = k as int;
                self.indicators[k] = indicator;
                proof {
                    assert(self.indicators@ == pre.update(kk, indicator));
                    assert forall|id: u128| #[trigger]
                        ind_present(self.indicators@, id) == (ind_present(pre, id) || id
                            == indicator.id) by {
                        if ind_present(self.indicators@, id) {
                            let i = choose|i: int|
                                0 <= i < self.indicators@.len() && self.indicators@[i].id == id;
                            if i != kk {
                                assert(pre[i].id == id);
                            }
                        }
                        if ind_present(pre, id) {
                            let i = choose|i: int| 0 <= i < pre.len() && pre[i].id == id;
                            if i != kk {
                                assert(self.indicators@[i].id == id);
                            } else {
                                assert(pre[kk].id == indicator.id);
                            }
                        }
                        if id == indicator.id {
                            assert(self.indicators@[kk].id == id);
                        }
                    }
                }
                return ;
            }
            k += 1;
        }
        let ghost pre = self.indicators@;
        self.indicators.push(indicator);
        proof {
            assert forall|id: u128| #[trigger]
                ind_present(self.indicators@, id) == (ind_present(pre, id) || id
                    == indicator.id) by {
                if ind_present(self.indicators@, id) {
                    let i = choose|i: int|
                        0 <= i < self.indicators@.len() && self.indicators@[i].id == id;
                    if i < pre.len() {
                        assert(pre[i].id == id);
                    }
                }
                if ind_present(pre, id) {
                    let i = choose|i: int| 0 <= i < pre.len() && pre[i].id == id;
                    assert(self.indicators@[i].id == id);
                }
                if id == indicator.id {
                    assert(self.indicators@[pre.len() as int].id == id);
                }
            }
        }
    }

    /// Evaluate an individual correlation condition against an indicator.
    pub fn evaluate_condition(
        &self,
        condition: &CorrelationCondition,
        indicator: &ThreatIndicator,
    ) -> (r: bool)
        ensures
            r == spec_eval_condition(*condition, *indicator),
    {
        if str_eq(condition.field.as_str(), "threat_type") {
            match (&condition.operator, &condition.value) {
                (ConditionOperator::Equals, ConditionValue::Threat(t)) => indicator.threat_type
                    == *t,
                _ => false,
            }
        } else if str_eq(condition.field.as_str(), "severity") {
            match (&condition.operator, &condition.value) {
                (ConditionOperator::Equals, ConditionValue::Severity(v)) => indicator.severity
                    == *v,
                (ConditionOperator::GreaterThan, ConditionValue::Severity(v)) => {
                    indicator.severity.rank() >= v.rank()
                },
                _ => false,
            }
        } else if str_eq(condition.field.as_str(), "mitre_tactics") {
            match (&condition.operator, &condition.value) {
                (ConditionOperator::Contains, ConditionValue::Text(s)) => contains_string(
                    &indicator.mitre_tactics,
                    s,
                ),
                _ => false,
            }
        } else if str_eq(condition.field.as_str(), "first_seen") {
            matches!(condition.operator, ConditionOperator::InTimeRange)
        } else {
            false
        }
    }

    /// Identifiers of the stored indicators matching a rule: those whose
    /// satisfied conditions carry at least seventy percent of the rule's
    /// condition weight.
    pub fn find_matching_indicators(&self, rule: &CorrelationRule) -> (matched: Vec<u128>)
        requires
            self.wf(),
            rule.conditions@.len() <= MAX_RULE_CONDITIONS,
        ensures
            matched@ == matched_ids(self.indicators@, *rule, self.indicators@.len() as int),
    {
        let mut matched: Vec<u128> = Vec::new();
        let n = self.indicators.len();
        for i in 0..n
            invariant
                self.wf(),
                n == self.indicators@.len(),
                rule.conditions@.len() <= MAX_RULE_CONDITIONS,
                matched@ == matched_ids(self.indicators@, *rule, i as int),
        {
            let nc = rule.conditions.len();
            let mut total: u128 = 0;
            let mut hit: u128 = 0;
            for c in 0..nc
                invariant
                    self.wf(),
                    i < n == self.indicators@.len(),
                    nc == rule.conditions@.len() <= MAX_RULE_CONDITIONS,
                    total == cond_weight_total(rule.conditions@.take(c as int)),
                    hit == cond_weight_matched(
                        rule.conditions@.take(c as int),
                        self.indicators@[i as int],
                    ),
                    hit <= total <= (c as int) * (u64::MAX as int),
            {
                proof {
                    let pre = rule.conditions@.take(c as int);
                    let cur = rule.conditions@.take(c + 1);
                    assert(cur.drop_last() =~= pre);
                    assert(cur.last() == rule.conditions@[c as int]);
                    assert((c as int) * (u64::MAX as int) + (u64::MAX as int) == (c + 1) * (
                    u64::MAX as int)) by (nonlinear_arith);
                }
                let w = rule.conditions[c].weight;
                total = total + (w as u128);
                if self.evaluate_condition(&rule.conditions[c], &self.indicators[i]) {
                    hit = hit + (w as u128);
                }
            }
            proof {
                assert(rule.conditions@.take(rule.conditions@.len() as int)
                    =~= rule.conditions@);
            }
            // At least seventy percent of the weight must match.
            if total > 0 && 10 * hit >= 7 * total {
                matched.push(self.indicators[i].id);
            }
        }
        matched
    }

    /// Correlation score for a rule and the indicators it matched.
    #[verifier::rlimit(100)]
    pub fn calculate_correlation_score(
        &self,
        rule: &CorrelationRule,
        matched_indicators: &Vec<u128>,
    ) -> (score: u64)
        requires
            self.wf(),
            matched_indicators@.len() <= self.indicators@.len(),
        ensures
            score == spec_correlation_score(self.indicators@, *rule, matched_indicators@),
            score <= CONF_SCALE,
    {
        let m = matched_indicators.len();
        let mut csum: u128 = 0;
        let mut cvalid: u64 = 0;
        for t in 0..m
            invariant
                self.wf(),
                m == matched_indicators@.len() <= self.indicators@.len(),
                (csum as int, cvalid as int) == listed_conf_sum(
                    self.indicators@,
                    matched_indicators@,
                    t as int,
                ),
                cvalid <= t,
                csum as int <= (cvalid as int) * (CONF_SCALE as int),
        {
            let id = matched_indicators[t];
            let n = self.indicators.len();
            let mut found = false;
            let mut conf: u64 = 0;
            for i in 0..n
                invariant
                    self.wf(),
                    n == self.indicators@.len(),
                    found == exists|j: int|
                        0 <= j < i && #[trigger] self.indicators@[j].id == id,
                    found ==> conf as int == ind_conf(self.indicators@, id) && conf
                        <= CONF_SCALE,
                    !found ==> conf == 0,
            {
                if !found && self.indicators[i].id == id {
                    found = true;
                    conf = self.indicators[i].confidence;
                    proof {
                        let j = choose|j: int|
                            0 <= j < self.indicators@.len() && self.indicators@[j].id == id;
                        if j != i as int {
                            assert(self.indicators@[j].id != self.indicators@[i as int].id);
                        }
                        assert(self.indicators@[i as int].confidence <= CONF_SCALE);
                    }
                }
            }
            proof {
                assert((cvalid as int) * (CONF_SCALE as int) + (CONF_SCALE as int) == (
                cvalid as int + 1) * (CONF_SCALE as int)) by (nonlinear_arith);
            }
            if found {
                csum = csum + (conf as u128);
                cvalid = cvalid + 1;
            }
        }
        let base: u128 = if m >= 1 {
            ((m - 1) as u128) * 200_000
        } else {
            0
        };
        let bonus: u64 = match rule.rule_type {
            CorrelationType::Attribution => 300_000,
            CorrelationType::Campaign => 250_000,
            CorrelationType::Behavioral => 200_000,
            CorrelationType::Temporal => 150_000,
            CorrelationType::Spatial => 100_000,
        };
        let avg_part: u64 = if cvalid > 0 {
            proof {
                assert(csum / (cvalid as u128) <= CONF_SCALE) by (nonlinear_arith)
                    requires
                        cvalid > 0,
                        csum as int <= (cvalid as int) * (CONF_SCALE as int),
                ;
            }
            let avg = (csum / (cvalid as u128)) as u64;
            (avg * 300_000) / CONF_SCALE
        } else {
            0
        };
        let raw: u128 = base + (bonus as u128) + (avg_part as u128);
        if raw > (CONF_SCALE as u128) {
            CONF_SCALE
        } else {
            raw as u64
        }
    }
}

// ------------------------------------------------------------------
// Query matching and search
// ------------------------------------------------------------------

/// Whether an indicator satisfies every criterion a query sets.
pub open spec fn spec_threat_matches(q: ThreatQuery, ind: ThreatIndicator) -> bool {
    &&& match q.threat_types {
        Option::Some(ts) => exists|k: int| 0 <= k < ts@.len() && ts@[k] == ind.threat_type,
        Option::None => true,
    }
    &&& match q.severities {
        Option::Some(vs) => exists|k: int| 0 <= k < vs@.len() && vs@[k] == ind.severity,
        Option::None => true,
    }
    &&& match q.sources {
        Option::Some(ss) => contains_view(ss@, ind.source@),
        Option::None => true,
    }
    &&& match q.value_pattern {
        Option::Some(p) => crate::text::seq_contains_sub(lower_of(ind.value@), lower_of(p@)),
        Option::None => true,
    }
    &&& match q.date_range {
        Option::Some((start, end)) => start <= ind.first_seen <= end,
        Option::None => true,
    }
    &&& match q.min_confidence {
        Option::Some(mc) => ind.confidence >= mc,
        Option::None => true,
    }
}

impl ThreatQuery {
    /// Whether the indicator satisfies every criterion this query sets.
    pub fn matches(&self, indicator: &ThreatIndicator) -> (r: bool)
        ensures
            r == spec_threat_matches(*self, *indicator),
    {
        if let Option::Some(types) = &self.threat_types {
            let mut hit = false;
            let n = types.len();
            for k in 0..n
                invariant
                    n == types@.len(),
                    hit == exists|t: int| 0 <= t < k && types@[t] == indicator.threat_type,
            {
                if types[k] == indicator.threat_type {
                    hit = true;
                }
            }
            if !hit {
                return false;
            }
        }
        if let Option::Some(sevs) = &self.severities {
            let mut hit = false;
            let n = sevs.len();
            for k in 0..n
                invariant
                    n == sevs@.len(),
                    hit == exists|t: int| 0 <= t < k && sevs@[t] == indicator.severity,
            {
                if sevs[k] == indicator.severity {
                    hit = true;
                }
            }
            if !hit {
                return false;
            }
        }
        if let Option::Some(sources) = &self.sources {
            if !contains_string(sources, &indicator.source) {
                return false;
            }
        }
        if let Option::Some(pattern) = &self.value_pattern {
            let lv = crate::trusted::lowercase(indicator.value.as_str());
            let lp = crate::trusted::lowercase(pattern.as_str());
            if !crate::text::str_contains(lv.as_str(), lp.as_str()) {
                return false;
            }
        }
        if let Option::Some((start, end)) = &self.date_range {
            if indicator.first_seen < *start || indicator.first_seen > *end {
                return false;
            }
        }
        if let Option::Some(mc) = &self.min_confidence {
            if indicator.confidence < *mc {
                return false;
            }
        }
        true
    }
}

/// Two indicators agree on every observable field.
pub open spec fn indicator_equiv(a: ThreatIndicator, b: ThreatIndicator) -> bool {
    &&& a.id == b.id
    &&& a.indicator_type == b.indicator_type
    &&& a.value@ == b.value@
    &&& a.threat_type == b.threat_type
    &&& a.severity == b.severity
    &&& a.confidence == b.confidence
    &&& a.tlp == b.tlp
    &&& a.source@ == b.source@
    &&& a.first_seen == b.first_seen
    &&& a.last_seen == b.last_seen
    &&& a.valid_until == b.valid_until
    &&& a.context == b.context
    &&& a.mitre_tactics@ == b.mitre_tactics@
    &&& a.mitre_techniques@ == b.mitre_techniques@
}

/// Faithful copy of an indicator.
fn clone_indicator(ind: &ThreatIndicator) -> (c: ThreatIndicator)
    ensures
        indicator_equiv(c, *ind),
{
    ThreatIndicator {
        id: ind.id,
        indicator_type: ind.indicator_type,
        value: ind.value.clone(),
        threat_type: ind.threat_type,
        severity: ind.severity,
        confidence: ind.confidence,
        tlp: ind.tlp,
        source: ind.source.clone(),
        first_seen: ind.first_seen,
        last_seen: ind.last_seen,
        valid_until: if let Option::Some(v) = &ind.valid_until {
            Option::Some(*v)
        } else {
            Option::None
        },
        context: crate::fusion::clone_opt_string(&ind.context),
        mitre_tactics: crate::fusion::clone_strings(&ind.mitre_tactics),
        mitre_techniques: crate::fusion::clone_strings(&ind.mitre_techniques),
    }
}

/// Number of the first `k` stored indicators that satisfy the query.
pub open spec fn count_query_matches(
    inds: Seq<ThreatIndicator>,
    q: ThreatQuery,
    k: int,
) -> int
    decreases k,
{
    if k <= 0 {
        0
    } else {
        count_query_matches(inds, q, k - 1) + if spec_threat_matches(q, inds[k - 1]) {
            1int
        } else {
            0int
        }
    }
}

impl ThreatIntelEngine {
    /// All stored indicators satisfying the query, as faithful copies in
    /// store order.
    pub fn search_indicators(&self, query: &ThreatQuery) -> (found: Vec<ThreatIndicator>)
        ensures
            found@.len() == count_query_matches(
                self.indicators@,
                *query,
                self.indicators@.len() as int,
            ),
            forall|t: int|
                0 <= t < found@.len() ==> spec_threat_matches(*query, #[trigger] found@[t]),
            forall|t: int|
                0 <= t < found@.len() ==> exists|i: int|
                    0 <= i < self.indicators@.len() && indicator_equiv(
                        #[trigger] found@[t],
                        self.indicators@[i],
                    ),
    {
        let mut found: Vec<ThreatIndicator> = Vec::new();
        let n = self.indicators.len();
        for i in 0..n
            invariant
                n == self.indicators@.len(),
                found@.len() == count_query_matches(self.indicators@, *query, i as int),
                forall|t: int|
                    0 <= t < found@.len() ==> spec_threat_matches(*query, #[trigger] found@[t]),
                forall|t: int|
                    0 <= t < found@.len() ==> exists|i2: int|
                        0 <= i2 < n && indicator_equiv(#[trigger] found@[t], self.indicators@[i2]),
        {
            if query.matches(&self.indicators[i]) {
                found.push(clone_indicator(&self.indicators[i]));
                proof {
                    // The clone satisfies the query exactly as the stored
                    // indicator does: matching reads only observable fields.
                    assert(indicator_equiv(found@.last(), self.indicators@[i as int]));
                }
            }
        }
        found
    }
}

// ------------------------------------------------------------------
// The correlation pass
// ------------------------------------------------------------------

/// Copy a vector of correlation actions.
fn clone_actions(v: &Vec<CorrelationAction>) -> (r: Vec<CorrelationAction>)
    ensures
        actions_equiv(r@, v@),
{
    let mut r: Vec<CorrelationAction> = Vec::new();
    let n = v.len();
    for k in 0..n
        invariant
            n == v@.len(),
            r@.len() == k,
            forall|t: int|
                0 <= t < k ==> (#[trigger] r@[t]).action_type == v@[t].action_type
                    && r@[t].parameters@ == v@[t].parameters@,
    {
        r.push(
            CorrelationAction {
                action_type: v[k].action_type,
                parameters: crate::fusion::clone_pairs(&v[k].parameters),
            },
        );
    }
    r
}

/// Two action lists agree on every observable field.
pub open spec fn actions_equiv(a: Seq<CorrelationAction>, b: Seq<CorrelationAction>) -> bool {
    &&& a.len() == b.len()
    &&& forall|t: int|
        0 <= t < a.len() ==> (#[trigger] a[t]).action_type == b[t].action_type && a[t].parameters@
            == b[t].parameters@
}

proof fn lemma_matched_ids_len(inds: Seq<ThreatIndicator>, rule: CorrelationRule, k: int)
    requires
        0 <= k <= inds.len(),
    ensures
        matched_ids(inds, rule, k).len() <= k,
    decreases k,
{
    if k > 0 {
        lemma_matched_ids_len(inds, rule, k - 1);
    }
}

/// Whether rule `i` produces a correlation result: it is enabled, at
/// least two indicators match it, and the correlation score reaches the
/// threshold.
pub open spec fn rule_fires(
    rules: Seq<CorrelationRule>,
    inds: Seq<ThreatIndicator>,
    i: int,
) -> bool {
    &&& 0 <= i < rules.len()
    &&& rules[i].enabled
    &&& matched_ids(inds, rules[i], inds.len() as int).len() >= 2
    &&& spec_correlation_score(inds, rules[i], matched_ids(inds, rules[i], inds.len() as int))
        >= crate::fusion::CORRELATION_THRESHOLD
}

/// The result is what some firing rule emits.
pub open spec fn emitted_by_some_rule(
    res: CorrelationResult,
    rules: Seq<CorrelationRule>,
    inds: Seq<ThreatIndicator>,
    now: int,
) -> bool {
    exists|i: int|
        rule_fires(rules, inds, i) && #[trigger] result_of_rule(res, rules, inds, now, i)
}

/// The result is exactly what firing rule `i` emits.
pub open spec fn result_of_rule(
    res: CorrelationResult,
    rules: Seq<CorrelationRule>,
    inds: Seq<ThreatIndicator>,
    now: int,
    i: int,
) -> bool {
    &&& res.rule_id == rules[i].id
    &&& res.matched_indicators@ == matched_ids(inds, rules[i], inds.len() as int)
    &&& res.correlation_score == spec_correlation_score(
        inds,
        rules[i],
        matched_ids(inds, rules[i], inds.len() as int),
    )
    &&& res.correlation_score >= crate::fusion::CORRELATION_THRESHOLD
    &&& res.created_at == now
    &&& actions_equiv(res.actions_taken@, rules[i].actions@)
}

/// Some position of `l` holds the value `v`.
spec fn idx_listed(l: Seq<int>, v: int) -> bool {
    exists|k: int| 0 <= k < l.len() && l[k] == v
}

impl ThreatIntelEngine {
    /// Run the correlation analysis: every enabled rule that at least two
    /// indicators match, with a correlation score at or above the
    /// threshold, emits one result.
    #[verifier::rlimit(100)]
    pub fn correlate_threats(&self, now: i64) -> (r: Result<
        Vec<CorrelationResult>,
        crate::error::Error,
    >)
        requires
            self.wf(),
        ensures
            r is Ok,
            forall|k: int|
                0 <= k < r->Ok_0@.len() ==> emitted_by_some_rule(
                    #[trigger] r->Ok_0@[k],
                    self.correlation_rules@,
                    self.indicators@,
                    now as int,
                ),
            forall|i: int|
                rule_fires(self.correlation_rules@, self.indicators@, i) ==> exists|k: int|
                    0 <= k < r->Ok_0@.len() && result_of_rule(
                        #[trigger] r->Ok_0@[k],
                        self.correlation_rules@,
                        self.indicators@,
                        now as int,
                        i,
                    ),
    {
        let mut results: Vec<CorrelationResult> = Vec::new();
        let ghost mut fired: Seq<int> = Seq::empty();
        let ghost rls = self.correlation_rules@;
        let ghost inds = self.indicators@;
        let nr = self.correlation_rules.len();
        for i in 0..nr
            invariant
                self.wf(),
                rls == self.correlation_rules@,
                inds == self.indicators@,
                nr == rls.len(),
                fired.len() == results@.len(),
                forall|k: int|
                    0 <= k < fired.len() ==> 0 <= #[trigger] fired[k] < i && rule_fires(
                        rls,
                        inds,
                        fired[k],
                    ) && result_of_rule(results@[k], rls, inds, now as int, fired[k]),
                forall|i2: int|
                    0 <= i2 < i && rule_fires(rls, inds, i2) ==> #[trigger] idx_listed(fired, i2),
        {
            let rule = &self.correlation_rules[i];
            let ghost fired0 = fired;
            let mut emitted = false;
            if rule.enabled {
                let matched = self.find_matching_indicators(rule);
                if matched.len() >= 2 {
                    proof {
                        lemma_matched_ids_len(inds, rls[i as int], inds.len() as int);
                    }
                    let score = self.calculate_correlation_score(rule, &matched);
                    if score >= crate::fusion::CORRELATION_THRESHOLD {
                        let res = CorrelationResult {
                            rule_id: rule.id,
                            matched_indicators: matched,
                            correlation_score: score,
                            created_at: now,
                            actions_taken: clone_actions(&rule.actions),
                        };
                        results.push(res);
                        emitted = true;
                        proof {
                            fired = fired0.push(i as int);
                            assert(rule_fires(rls, inds, i as int));
                            assert(result_of_rule(results@.last(), rls, inds, now as int, i as int));
                        }
                    } else {
                        proof {
                            assert(!rule_fires(rls, inds, i as int));
                        }
                    }
                } else {
                    proof {
                        assert(!rule_fires(rls, inds, i as int));
                    }
                }
            } else {
                proof {
                    assert(!rule_fires(rls, inds, i as int));
                }
            }
            proof {
                assert forall|i2: int|
                    0 <= i2 < i + 1 && rule_fires(rls, inds, i2) implies #[trigger] idx_listed(
                    fired,
                    i2,
                ) by {
                    if i2 == i as int {
                        assert(emitted);
                        assert(fired[fired.len() - 1] == i2);
                    } else {
                        assert(idx_listed(fired0, i2));
                        let k = choose|k: int| 0 <= k < fired0.len() && fired0[k] == i2;
                        assert(fired[k] == i2);
                    }
                }
            }
        }
        let out: Result<Vec<CorrelationResult>, crate::error::Error> = Result::Ok(results);
        proof {
            assert(out->Ok_0@ == results@);
            assert forall|k: int|
                0 <= k < out->Ok_0@.len() implies emitted_by_some_rule(
                #[trigger] out->Ok_0@[k],
                self.correlation_rules@,
                self.indicators@,
                now as int,
            ) by {
                assert(rule_fires(self.correlation_rules@, self.indicators@, fired[k])
                    && result_of_rule(
                    out->Ok_0@[k],
                    self.correlation_rules@,
                    self.indicators@,
                    now as int,
                    fired[k],
                ));
            }
            assert forall|i: int|
                rule_fires(self.correlation_rules@, self.indicators@, i) implies exists|k: int|
                0 <= k < out->Ok_0@.len() && result_of_rule(
                    #[trigger] out->Ok_0@[k],
                    self.correlation_rules@,
                    self.indicators@,
                    now as int,
                    i,
                ) by {
                assert(idx_listed(fired, i));
                let k = choose|k: int| 0 <= k < fired.len() && fired[k] == i;
                assert(result_of_rule(
                    out->Ok_0@[k],
                    self.correlation_rules@,
                    self.indicators@,
                    now as int,
                    fired[k],
                ));
            }
        }
        out
    }
}

// ------------------------------------------------------------------
// Statistics
// ------------------------------------------------------------------

/// An indicator first seen within the last day.
pub open spec fn is_recent(ind: ThreatIndicator, now: int) -> bool {
    ind.first_seen >= now - 86400
}

/// Number of the first `k` indicators first seen within the last day.
pub open spec fn count_recent(inds: Seq<ThreatIndicator>, now: int, k: int) -> int
    decreases k,
{
    if k <= 0 {
        0
    } else {
        count_recent(inds, now, k - 1) + if is_recent(inds[k - 1], now) {
            1int
        } else {
            0int
        }
    }
}

impl Default for ThreatIntelEngine {
    /// An engine with no indicators and no rules.
    fn default() -> (engine: ThreatIntelEngine)
        ensures
            engine.indicators@.len() == 0,
            engine.correlation_rules@.len() == 0,
            engine.wf(),
    {
        ThreatIntelEngine::new()
    }
}

/// Number of the first `k` indicators carrying the threat type.
pub open spec fn count_threat_type(inds: Seq<ThreatIndicator>, t: ThreatType, k: int) -> int
    decreases k,
{
    if k <= 0 {
        0
    } else {
        count_threat_type(inds, t, k - 1) + if inds[k - 1].threat_type == t {
            1int
        } else {
            0int
        }
    }
}

/// Number of the first `k` indicators carrying the severity.
pub open spec fn count_severity(inds: Seq<ThreatIndicator>, v: ThreatSeverity, k: int) -> int
    decreases k,
{
    if k <= 0 {
        0
    } else {
        count_severity(inds, v, k - 1) + if inds[k - 1].severity == v {
            1int
        } else {
            0int
        }
    }
}

/// Number of the first `k` indicators from the source.
pub open spec fn count_source(inds: Seq<ThreatIndicator>, src: Seq<char>, k: int) -> int
    decreases k,
{
    if k <= 0 {
        0
    } else {
        count_source(inds, src, k - 1) + if inds[k - 1].source@ == src {
            1int
        } else {
            0int
        }
    }
}

proof fn lemma_count_threat_type_zero(inds: Seq<ThreatIndicator>, t: ThreatType, k: int)
    requires
        forall|j: int| 0 <= j < k ==> (#[trigger] inds[j]).threat_type != t,
    ensures
        count_threat_type(inds, t, k) == 0,
    decreases k,
{
    if k > 0 {
        lemma_count_threat_type_zero(inds, t, k - 1);
    }
}

proof fn lemma_count_severity_zero(inds: Seq<ThreatIndicator>, v: ThreatSeverity, k: int)
    requires
        forall|j: int| 0 <= j < k ==> (#[trigger] inds[j]).severity != v,
    ensures
        count_severity(inds, v, k) == 0,
    decreases k,
{
    if k > 0 {
        lemma_count_severity_zero(inds, v, k - 1);
    }
}

proof fn lemma_count_source_zero(inds: Seq<ThreatIndicator>, src: Seq<char>, k: int)
    requires
        forall|j: int| 0 <= j < k ==> (#[trigger] inds[j]).source@ != src,
    ensures
        count_source(inds, src, k) == 0,
    decreases k,
{
    if k > 0 {
        lemma_count_source_zero(inds, src, k - 1);
    }
}

/// A tally over threat types lists the key.
pub open spec fn type_tallied(tt: Seq<(ThreatType, usize)>, t: ThreatType) -> bool {
    exists|e: int| 0 <= e < tt.len() && (#[trigger] tt[e]).0 == t
}

/// A tally over severities lists the key.
pub open spec fn severity_tallied(tt: Seq<(ThreatSeverity, usize)>, v: ThreatSeverity) -> bool {
    exists|e: int| 0 <= e < tt.len() && (#[trigger] tt[e]).0 == v
}

/// A tally over sources lists the key.
pub open spec fn source_tallied(tt: Seq<(String, usize)>, src: Seq<char>) -> bool {
    exists|e: int| 0 <= e < tt.len() && (#[trigger] tt[e]).0@ == src
}

impl ThreatIntelEngine {
    /// Summary statistics of the indicator store: the store size, how
    /// many indicators were first seen within the last day, and exact
    /// tallies of indicators per threat type, severity and source, each
    /// occurring key listed once.
    #[verifier::rlimit(100)]
    pub fn get_threat_stats(&self, now: i64) -> (stats: ThreatStatistics)
        ensures
            stats.total_indicators == self.indicators@.len(),
            stats.recent_indicators == count_recent(
                self.indicators@,
                now as int,
                self.indicators@.len() as int,
            ),
            forall|a: int, b: int|
                0 <= a < b < stats.threat_types@.len() ==> stats.threat_types@[a].0
                    != stats.threat_types@[b].0,
            forall|e: int|
                0 <= e < stats.threat_types@.len() ==> (#[trigger] stats.threat_types@[e]).1
                    as int == count_threat_type(
                    self.indicators@,
                    stats.threat_types@[e].0,
                    self.indicators@.len() as int,
                ) && stats.threat_types@[e].1 >= 1,
            forall|j: int|
                0 <= j < self.indicators@.len() ==> type_tallied(
                    stats.threat_types@,
                    (#[trigger] self.indicators@[j]).threat_type,
                ),
            forall|a: int, b: int|
                0 <= a < b < stats.severities@.len() ==> stats.severities@[a].0
                    != stats.severities@[b].0,
            forall|e: int|
                0 <= e < stats.severities@.len() ==> (#[trigger] stats.severities@[e]).1 as int
                    == count_severity(
                    self.indicators@,
                    stats.severities@[e].0,
                    self.indicators@.len() as int,
                ) && stats.severities@[e].1 >= 1,
            forall|j: int|
                0 <= j < self.indicators@.len() ==> severity_tallied(
                    stats.severities@,
                    (#[trigger] self.indicators@[j]).severity,
                ),
            forall|a: int, b: int|
                0 <= a < b < stats.sources@.len() ==> stats.sources@[a].0@
                    != stats.sources@[b].0@,
            forall|e: int|
                0 <= e < stats.sources@.len() ==> (#[trigger] stats.sources@[e]).1 as int
                    == count_source(
                    self.indicators@,
                    stats.sources@[e].0@,
                    self.indicators@.len() as int,
                ) && stats.sources@[e].1 >= 1,
            forall|j: int|
                0 <= j < self.indicators@.len() ==> source_tallied(
                    stats.sources@,
                    (#[trigger] self.indicators@[j]).source@,
                ),
    {
        let ghost inds = self.indicators@;
        let n = self.indicators.len();
        let mut recent: usize = 0;
        for i in 0..n
            invariant
                n == self.indicators@.len(),
                inds == self.indicators@,
                recent == count_recent(inds, now as int, i as int),
                recent <= i,
        {
            if (self.indicators[i].first_seen as i128) >= (now as i128) - 86400 {
                recent += 1;
            }
        }

        let mut threat_types: Vec<(ThreatType, usize)> = Vec::new();
        for z in 0..n
            invariant
                n == self.indicators@.len(),
                inds == self.indicators@,
                forall|a: int, b: int|
                    0 <= a < b < threat_types@.len() ==> threat_types@[a].0
                        != threat_types@[b].0,
                forall|e: int|
                    0 <= e < threat_types@.len() ==> (#[trigger] threat_types@[e]).1 as int
                        == count_threat_type(inds, threat_types@[e].0, z as int) && 1
                        <= threat_types@[e].1 <= z,
                forall|j: int|
                    0 <= j < z ==> type_tallied(
                        threat_types@,
                        (#[trigger] inds[j]).threat_type,
                    ),
        {
            let ty = self.indicators[z].threat_type;
            let m = threat_types.len();
            let mut pos: Option<usize> = None;
            for k in 0..m
                invariant
                    m == threat_types@.len(),
                    pos is None ==> forall|t: int| 0 <= t < k ==> threat_types@[t].0 != ty,
                    pos is Some ==> pos->0 < m && threat_types@[pos->0 as int].0 == ty,
            {
                if pos.is_none() && threat_types[k].0 == ty {
                    pos = Some(k);
                }
            }
            let ghost pre = threat_types@;
            match pos {
                Some(p) => {
                    let c = threat_types[p].1;
                    threat_types[p] = (ty, c + 1);
                    proof {
                        assert(threat_types@ == pre.update(p as int, (ty, (c + 1) as usize)));
                        assert forall|j: int|
                            0 <= j < z + 1 implies type_tallied(
                            threat_types@,
                            (#[trigger] inds[j]).threat_type,
                        ) by {
                            if j < z {
                                let e = choose|e: int|
                                    0 <= e < pre.len() && (#[trigger] pre[e]).0
                                        == inds[j].threat_type;
                                assert(threat_types@[e].0 == pre[e].0);
                            } else {
                                assert(threat_types@[p as int].0 == ty);
                            }
                        }
                    }
                },
                None => {
                    proof {
                        assert forall|j: int|
                            0 <= j < z implies (#[trigger] inds[j]).threat_type != ty by {
                            if inds[j].threat_type == ty {
                                assert(type_tallied(pre, ty));
                            }
                        }
                        lemma_count_threat_type_zero(inds, ty, z as int);
                    }
                    threat_types.push((ty, 1));
                    proof {
                        assert forall|j: int|
                            0 <= j < z + 1 implies type_tallied(
                            threat_types@,
                            (#[trigger] inds[j]).threat_type,
                        ) by {
                            if j < z {
                                let e = choose|e: int|
                                    0 <= e < pre.len() && (#[trigger] pre[e]).0
                                        == inds[j].threat_type;
                                assert(threat_types@[e].0 == pre[e].0);
                            } else {
                                assert(threat_types@.last().0 == ty);
                            }
                        }
                    }
                },
            }
        }

        let mut severities: Vec<(ThreatSeverity, usize)> = Vec::new();
        for z in 0..n
            invariant
                n == self.indicators@.len(),
                inds == self.indicators@,
                forall|a: int, b: int|
                    0 <= a < b < severities@.len() ==> severities@[a].0 != severities@[b].0,
                forall|e: int|
                    0 <= e < severities@.len() ==> (#[trigger] severities@[e]).1 as int
                        == count_severity(inds, severities@[e].0, z as int) && 1
                        <= severities@[e].1 <= z,
                forall|j: int|
                    0 <= j < z ==> severity_tallied(severities@, (#[trigger] inds[j]).severity),
        {
            let sv = self.indicators[z].severity;
            let m = severities.len();
            let mut pos: Option<usize> = None;
            for k in 0..m
                invariant
                    m == severities@.len(),
                    pos is None ==> forall|t: int| 0 <= t < k ==> severities@[t].0 != sv,
                    pos is Some ==> pos->0 < m && severities@[pos->0 as int].0 == sv,
            {
                if pos.is_none() && severities[k].0 == sv {
                    pos = Some(k);
                }
            }
            let ghost pre = severities@;
            match pos {
                Some(p) => {
                    let c = severities[p].1;
                    severities[p] = (sv, c + 1);
                    proof {
                        assert(severities@ == pre.update(p as int, (sv, (c + 1) as usize)));
                        assert forall|j: int|
                            0 <= j < z + 1 implies severity_tallied(
                            severities@,
                            (#[trigger] inds[j]).severity,
                        ) by {
                            if j < z {
                                let e = choose|e: int|
                                    0 <= e < pre.len() && (#[trigger] pre[e]).0 == inds[j].severity;
                                assert(severities@[e].0 == pre[e].0);
                            } else {
                                assert(severities@[p as int].0 == sv);
                            }
                        }
                    }
                },
                None => {
                    proof {
                        assert forall|j: int|
                            0 <= j < z implies (#[trigger] inds[j]).severity != sv by {
                            if inds[j].severity == sv {
                                assert(severity_tallied(pre, sv));
                            }
                        }
                        lemma_count_severity_zero(inds, sv, z as int);
                    }
                    severities.push((sv, 1));
                    proof {
                        assert forall|j: int|
                            0 <= j < z + 1 implies severity_tallied(
                            severities@,
                            (#[trigger] inds[j]).severity,
                        ) by {
                            if j < z {
                                let e = choose|e: int|
                                    0 <= e < pre.len() && (#[trigger] pre[e]).0 == inds[j].severity;
                                assert(severities@[e].0 == pre[e].0);
                            } else {
                                assert(severities@.last().0 == sv);
                            }
                        }
                    }
                },
            }
        }

        let mut sources: Vec<(String, usize)> = Vec::new();
        for z in 0..n
            invariant
                n == self.indicators@.len(),
                inds == self.indicators@,
                forall|a: int, b: int|
                    0 <= a < b < sources@.len() ==> sources@[a].0@ != sources@[b].0@,
                forall|e: int|
                    0 <= e < sources@.len() ==> (#[trigger] sources@[e]).1 as int == count_source(
                        inds,
                        sources@[e].0@,
                        z as int,
                    ) && 1 <= sources@[e].1 <= z,
                forall|j: int|
                    0 <= j < z ==> source_tallied(sources@, (#[trigger] inds[j]).source@),
        {
            let m = sources.len();
            let mut pos: Option<usize> = None;
            for k in 0..m
                invariant
                    m == sources@.len(),
                    z < n == self.indicators@.len(),
                    inds == self.indicators@,
                    pos is None ==> forall|t: int|
                        0 <= t < k ==> sources@[t].0@ != inds[z as int].source@,
                    pos is Some ==> pos->0 < m && sources@[pos->0 as int].0@
                        == inds[z as int].source@,
            {
                if pos.is_none() && sources[k].0.eq(&self.indicators[z].source) {
                    pos = Some(k);
                }
            }
            let ghost pre = sources@;
            let key = self.indicators[z].source.clone();
            match pos {
                Some(p) => {
                    let c = sources[p].1;
                    sources[p] = (key, c + 1);
                    proof {
                        assert(sources@[p as int].0@ == inds[z as int].source@);
                        assert(sources@.len() == pre.len());
                        assert(forall|e: int|
                            0 <= e < pre.len() && e != p ==> sources@[e] == pre[e]);
                        assert forall|j: int|
                            0 <= j < z + 1 implies source_tallied(
                            sources@,
                            (#[trigger] inds[j]).source@,
                        ) by {
                            if j < z {
                                let e = choose|e: int|
                                    0 <= e < pre.len() && (#[trigger] pre[e]).0@ == inds[j].source@;
                                assert(sources@[e].0@ == pre[e].0@);
                            } else {
                                assert(sources@[p as int].0@ == inds[z as int].source@);
                            }
                        }
                    }
                },
                None => {
                    proof {
                        assert forall|j: int|
                            0 <= j < z implies (#[trigger] inds[j]).source@
                            != inds[z as int].source@ by {
                            if inds[j].source@ == inds[z as int].source@ {
                                assert(source_tallied(pre, inds[z as int].source@));
                            }
                        }
                        lemma_count_source_zero(inds, inds[z as int].source@, z as int);
                    }
                    sources.push((key, 1));
                    proof {
                        assert(sources@.last().0@ == inds[z as int].source@);
                        assert forall|j: int|
                            0 <= j < z + 1 implies source_tallied(
                            sources@,
                            (#[trigger] inds[j]).source@,
                        ) by {
                            if j < z {
                                let e = choose|e: int|
                                    0 <= e < pre.len() && (#[trigger] pre[e]).0@ == inds[j].source@;
                                assert(sources@[e].0@ == pre[e].0@);
                            } else {
                                assert(sources@.last().0@ == inds[z as int].source@);
                            }
                        }
                    }
                },
            }
        }

        ThreatStatistics {
            total_indicators: n,
            recent_indicators: recent,
            threat_types,
            severities,
            sources,
        }
    }
}

} // verus!
