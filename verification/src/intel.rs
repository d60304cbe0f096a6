//! Intelligence processing: the entity, indicator and session stores,
//! entity queries and search, and platform statistics.
//!
//! Raw-data processors (regular-expression entity extraction and other
//! format-specific front ends) run in the surrounding application and
//! hand the engine already-structured values.

use vstd::prelude::*;

use crate::fusion::{clone_entity, clone_ids, clone_strings, contains_view, view_equiv};
use crate::models::{
    AnalysisSession, EntityType, IntelEntity, SessionPriority, SessionStatus, ThreatIndicator,
};
use crate::text::{seq_contains_sub, str_contains};
use crate::trusted::{lower_of, lowercase, now_seconds, random_id};

verus! {

#[derive(Debug, Clone, Copy, PartialEq, Eq, Structural)]
pub enum DataType {
    Text,
    Json,
    Xml,
    Binary,
    Image,
    Network,
    Social,
    Geographic,
    Financial,
}

/// Raw intelligence data input.
#[derive(Debug, Clone)]
pub struct IntelligenceData {
    pub id: u128,
    pub data_type: DataType,
    pub content: String,
    pub source: String,
    pub confidence: u64,
    pub collected_at: i64,
    pub metadata: Vec<(String, String)>,
}

/// Processing result.
#[derive(Debug, Clone)]
pub struct ProcessingResult {
    pub entities: Vec<IntelEntity>,
    pub indicators: Vec<ThreatIndicator>,
    pub relationships: Vec<crate::models::EntityRelationship>,
    pub confidence: u64,
    pub processing_notes: Option<String>,
}

/// Marker for the text-processing front end; its extraction runs in the
/// surrounding application and feeds structured values back in.
#[derive(Debug, Clone, Copy, PartialEq, Eq, Structural)]
pub struct TextProcessor;

impl TextProcessor {
    /// Whether this processor handles the given input.
    pub fn can_process(&self, data: &IntelligenceData) -> (r: bool)
        ensures
            r == (data.data_type == DataType::Text),
    {
        matches!(data.data_type, DataType::Text)
    }
}

/// Entity search query.
#[derive(Debug, Clone)]
pub struct EntityQuery {
    pub entity_types: Option<Vec<EntityType>>,
    pub name_pattern: Option<String>,
    pub tags: Option<Vec<String>>,
    pub min_confidence: Option<u64>,
    pub source: Option<String>,
    pub date_range: Option<(i64, i64)>,
}

/// Whether an entity satisfies every criterion a query sets: type in the
/// listed types, lowercased name containing the lowercased pattern, some
/// queried tag present, confidence at least the bound, exact source, and
/// creation time inside the range.
pub open spec fn spec_entity_matches(q: EntityQuery, e: IntelEntity) -> bool {
    &&& match q.entity_types {
        Option::Some(ts) => exists|k: int| 0 <= k < ts@.len() && ts@[k] == e.entity_type,
        Option::None => true,
    }
    &&& match q.name_pattern {
        Option::Some(p) => seq_contains_sub(lower_of(e.name@), lower_of(p@)),
        Option::None => true,
    }
    &&& match q.tags {
        Option::Some(ts) => exists|k: int|
            0 <= k < ts@.len() && contains_view(e.tags@, ts@[k]@),
        Option::None => true,
    }
    &&& match q.min_confidence {
        Option::Some(mc) => e.confidence >= mc,
        Option::None => true,
    }
    &&& match q.source {
        Option::Some(src) => e.source@ == src@,
        Option::None => true,
    }
    &&& match q.date_range {
        Option::Some((start, end)) => start <= e.created_at <= end,
        Option::None => true,
    }
}

impl EntityQuery {
    /// Check if the entity matches the query criteria.
    pub fn matches(&self, entity: &IntelEntity) -> (r: bool)
        ensures
            r == spec_entity_matches(*self, *entity),
    {
        if let Option::Some(types) = &self.entity_types {
            let mut hit = false;
            let n = types.len();
            for k in 0..n
                invariant
                    n == types@.len(),
                    hit == exists|t: int| 0 <= t < k && types@[t] == entity.entity_type,
            {
                if types[k] == entity.entity_type {
                    hit = true;
                }
            }
            if !hit {
                return false;
            }
        }
        if let Option::Some(pattern) = &self.name_pattern {
            let ln = lowercase(entity.name.as_str());
            let lp = lowercase(pattern.as_str());
            if !str_contains(ln.as_str(), lp.as_str()) {
                return false;
            }
        }
        if let Option::Some(tags) = &self.tags {
            let mut hit = false;
            let n = tags.len();
            for k in 0..n
                invariant
                    n == tags@.len(),
                    hit == exists|t: int|
                        0 <= t < k && contains_view(entity.tags@, tags@[t]@),
            {
                let m = entity.tags.len();
                let mut found = false;
                for j in 0..m
                    invariant
                        k < n == tags@.len(),
                        m == entity.tags@.len(),
                        found == exists|t: int|
                            0 <= t < j && entity.tags@[t]@ == tags@[k as int]@,
                {
                    if entity.tags[j].eq(&tags[k]) {
                        found = true;
                    }
                }
                if found {
                    hit = true;
                }
            }
            if !hit {
                return false;
            }
        }
        if let Option::Some(mc) = &self.min_confidence {
            if entity.confidence < *mc {
                return false;
            }
        }
        if let Option::Some(source) = &self.source {
            if !entity.source.eq(source) {
                return false;
            }
        }
        if let Option::Some((start, end)) = &self.date_range {
            if entity.created_at < *start || entity.created_at > *end {
                return false;
            }
        }
        true
    }
}

/// Intelligence statistics.
#[derive(Debug, Clone)]
pub struct IntelligenceStats {
    pub total_entities: usize,
    pub total_indicators: usize,
    pub total_sessions: usize,
    pub entity_types: Vec<(EntityType, usize)>,
    pub threat_types: Vec<(crate::models::ThreatType, usize)>,
    pub session_statuses: Vec<(SessionStatus, usize)>,
}

/// Two sessions agree on every observable field.
pub open spec fn session_equiv(a: AnalysisSession, b: AnalysisSession) -> bool {
    &&& a.id == b.id
    &&& a.name@ == b.name@
    &&& a.description == b.description
    &&& a.analyst_id == b.analyst_id
    &&& a.created_at == b.created_at
    &&& a.updated_at == b.updated_at
    &&& a.status == b.status
    &&& a.priority == b.priority
    &&& a.tags@ == b.tags@
    &&& a.entities@ == b.entities@
    &&& a.indicators@ == b.indicators@
}

/// Faithful copy of a session.
fn clone_session(s: &AnalysisSession) -> (c: AnalysisSession)
    ensures
        session_equiv(c, *s),
{
    AnalysisSession {
        id: s.id,
        name: s.name.clone(),
        description: crate::fusion::clone_opt_string(&s.description),
        analyst_id: s.analyst_id,
        created_at: s.created_at,
        updated_at: s.updated_at,
        status: s.status,
        priority: s.priority,
        tags: clone_strings(&s.tags),
        entities: clone_ids(&s.entities),
        indicators: clone_ids(&s.indicators),
    }
}

/// Number of the first `k` stored entities that satisfy the query.
pub open spec fn count_entity_matches(s: Seq<IntelEntity>, q: EntityQuery, k: int) -> int
    decreases k,
{
    if k <= 0 {
        0
    } else {
        count_entity_matches(s, q, k - 1) + if spec_entity_matches(q, s[k - 1]) {
            1int
        } else {
            0int
        }
    }
}

/// Intelligence processing engine: the stores behind the platform's
/// entity, indicator and session operations.
#[derive(Debug)]
pub struct IntelligenceEngine {
    pub entities: Vec<IntelEntity>,
    pub indicators: Vec<ThreatIndicator>,
    pub sessions: Vec<AnalysisSession>,
}

impl IntelligenceEngine {
    /// Stored identifiers are unique per store.
    pub open spec fn wf(&self) -> bool {
        &&& (forall|i: int, j: int|
            0 <= i < j < self.entities@.len() ==> self.entities@[i].id != self.entities@[j].id)
        &&& (forall|i: int, j: int|
            0 <= i < j < self.sessions@.len() ==> self.sessions@[i].id != self.sessions@[j].id)
    }

    /// Create a new intelligence engine.
    pub fn new() -> (engine: IntelligenceEngine)
        ensures
            engine.entities@.len() == 0,
            engine.indicators@.len() == 0,
            engine.sessions@.len() == 0,
            engine.wf(),
    {
        IntelligenceEngine { entities: Vec::new(), indicators: Vec::new(), sessions: Vec::new() }
    }

    /// Entity stored under the identifier, if any, as a faithful copy.
    pub fn get_entity(&self, id: u128) -> (r: Option<IntelEntity>)
        ensures
            (r is Some) == crate::fusion::id_present(self.entities@, id),
            r is Some ==> exists|i: int|
                0 <= i < self.entities@.len() && self.entities@[i].id == id && view_equiv(
                    r->0,
                    #[trigger] self.entities@[i],
                ),
    {
        let n = self.entities.len();
        for i in 0..n
            invariant
                n == self.entities@.len(),
                forall|t: int| 0 <= t < i ==> self.entities@[t].id != id,
        {
            if self.entities[i].id == id {
                return Option::Some(clone_entity(&self.entities[i]));
            }
        }
        Option::None
    }

    /// Stored entities satisfying the query, as faithful copies ranked by
    /// confidence, highest first.
    #[verifier::rlimit(100)]
    pub fn search_entities(&self, query: &EntityQuery) -> (found: Vec<IntelEntity>)
        ensures
            found@.len() == count_entity_matches(
                self.entities@,
                *query,
                self.entities@.len() as int,
            ),
            forall|t: int|
                0 <= t < found@.len() ==> spec_entity_matches(*query, #[trigger] found@[t]),
            forall|t: int|
                0 <= t < found@.len() ==> exists|i: int|
                    0 <= i < self.entities@.len() && view_equiv(
                        #[trigger] found@[t],
                        self.entities@[i],
                    ),
            forall|t1: int, t2: int|
                0 <= t1 < t2 < found@.len() ==> found@[t1].confidence >= found@[t2].confidence,
    {
        let mut found: Vec<IntelEntity> = Vec::new();
        let n = self.entities.len();
        for i in 0..n
            invariant
                n == self.entities@.len(),
                found@.len() == count_entity_matches(self.entities@, *query, i as int),
                forall|t: int|
                    0 <= t < found@.len() ==> spec_entity_matches(*query, #[trigger] found@[t]),
                forall|t: int|
                    0 <= t < found@.len() ==> exists|i2: int|
                        0 <= i2 < n && view_equiv(#[trigger] found@[t], self.entities@[i2]),
                forall|t1: int, t2: int|
                    0 <= t1 < t2 < found@.len() ==> found@[t1].confidence
                        >= found@[t2].confidence,
        {
            if query.matches(&self.entities[i]) {
                let c = clone_entity(&self.entities[i]);
                // Insert before the first stored result with a strictly
                // smaller confidence, keeping the ranking stable.
                let mut j: usize = 0;
                while j < found.len()
                    invariant_except_break
                        j <= found@.len(),
                        forall|t: int| 0 <= t < j ==> found@[t].confidence >= c.confidence,
                    ensures
                        j <= found@.len(),
                        forall|t: int| 0 <= t < j ==> found@[t].confidence >= c.confidence,
                        j < found@.len() ==> found@[j as int].confidence < c.confidence,
                    decreases found@.len() - j,
                {
                    if found[j].confidence < c.confidence {
                        break ;
                    }
                    j += 1;
                }
                let ghost pre = found@;
                let ghost jj = j as int;
                let ghost cc = c;
                found.insert(j, c);
                proof {
                    pre.insert_ensures(jj, cc);
                    assert(spec_entity_matches(*query, found@[jj]));
                    assert forall|t1: int, t2: int|
                        0 <= t1 < t2 < found@.len() implies found@[t1].confidence
                        >= found@[t2].confidence by {
                        if t1 < jj && t2 == jj {
                            assert(found@[t1] == pre[t1]);
                        } else if t1 == jj && t2 > jj {
                            assert(found@[t2] == pre[t2 - 1]);
                            assert(pre[jj].confidence < cc.confidence);
                            if t2 - 1 > jj {
                                assert(pre[jj].confidence >= pre[t2 - 1].confidence);
                            }
                        } else if t1 < jj && t2 > jj {
                            assert(found@[t1] == pre[t1] && found@[t2] == pre[t2 - 1]);
                        } else if t1 > jj {
                            assert(found@[t1] == pre[t1 - 1] && found@[t2] == pre[t2 - 1]);
                        } else {
                            assert(found@[t1] == pre[t1] && found@[t2] == pre[t2]);
                        }
                    }
                    assert forall|t: int|
                        0 <= t < found@.len() implies spec_entity_matches(
                        *query,
                        #[trigger] found@[t],
                    ) by {
                        if t < jj {
                            assert(found@[t] == pre[t]);
                        } else if t > jj {
                            assert(found@[t] == pre[t - 1]);
                        }
                    }
                    assert forall|t: int|
                        0 <= t < found@.len() implies exists|i2: int|
                        0 <= i2 < n && view_equiv(#[trigger] found@[t], self.entities@[i2]) by {
                        if t < jj {
                            assert(found@[t] == pre[t]);
                        } else if t > jj {
                            assert(found@[t] == pre[t - 1]);
                        } else {
                            assert(view_equiv(found@[t], self.entities@[i as int]));
                        }
                    }
                }
            }
        }
        found
    }

    /// Create a new analysis session: a fresh identifier, creation time
    /// read from the clock, draft status and medium priority.  The
    /// session is stored and returned.
    pub fn create_session(&mut self, name: String, analyst_id: u128) -> (r: Result<
        AnalysisSession,
        crate::error::Error,
    >)
        requires
            old(self).wf(),
        ensures
            final(self).entities == old(self).entities,
            final(self).indicators == old(self).indicators,
            r is Ok ==> {
                let session = r->Ok_0;
                &&& session.name@ == name@
                &&& session.analyst_id == analyst_id
                &&& session.status == SessionStatus::Draft
                &&& session.priority == SessionPriority::Medium
                &&& session.description is None
                &&& session.tags@.len() == 0
                &&& session.entities@.len() == 0
                &&& session.indicators@.len() == 0
                &&& final(self).wf()
                &&& final(self).sessions@.len() == old(self).sessions@.len() + 1
                &&& session_equiv(final(self).sessions@.last(), session)
            },
            r is Err ==> *final(self) == *old(self),
    {
        let id = random_id();
        // A randomly drawn identifier collides with a stored session only
        // with negligible probability; a collision is surfaced rather
        // than silently overwriting an existing session.
        let n = self.sessions.len();
        let mut k: usize = 0;
        while k < n
            invariant
                n == self.sessions@.len(),
                k <= n,
                forall|t: int| 0 <= t < k ==> self.sessions@[t].id != id,
                *self == *old(self),
            decreases n - k,
        {
            if self.sessions[k].id == id {
                return Result::Err(
                    crate::error::Error::Internal(
                        "session identifier collision".to_owned(),
                    ),
                );
            }
            k += 1;
        }
        let now = now_seconds();
        let session = AnalysisSession {
            id,
            name,
            description: Option::None,
            analyst_id,
            created_at: now,
            updated_at: now,
            status: SessionStatus::Draft,
            priority: SessionPriority::Medium,
            tags: Vec::new(),
            entities: Vec::new(),
            indicators: Vec::new(),
        };
        let stored = clone_session(&session);
        self.sessions.push(stored);
        Result::Ok(session)
    }

    /// Session stored under the identifier, if any, as a faithful copy.
    pub fn get_session(&self, id: u128) -> (r: Option<AnalysisSession>)
        ensures
            (r is Some) == exists|i: int|
                0 <= i < self.sessions@.len() && (#[trigger] self.sessions@[i]).id == id,
            r is Some ==> exists|i: int|
                0 <= i < self.sessions@.len() && self.sessions@[i].id == id && session_equiv(
                    r->0,
                    #[trigger] self.sessions@[i],
                ),
    {
        let n = self.sessions.len();
        for i in 0..n
            invariant
                n == self.sessions@.len(),
                forall|t: int| 0 <= t < i ==> self.sessions@[t].id != id,
        {
            if self.sessions[i].id == id {
                return Option::Some(clone_session(&self.sessions[i]));
            }
        }
        Option::None
    }

    /// Update a session's status, refreshing its update time from the
    /// clock; sessions that do not exist are reported as not found.
    pub fn update_session_status(&mut self, session_id: u128, status: SessionStatus) -> (r:
        Result<(), crate::error::Error>)
        requires
            old(self).wf(),
        ensures
            final(self).wf(),
            final(self).entities == old(self).entities,
            final(self).indicators == old(self).indicators,
            (r is Ok) == exists|i: int|
                0 <= i < old(self).sessions@.len() && (#[trigger] old(self).sessions@[i]).id
                    == session_id,
            r is Ok ==> final(self).sessions@.len() == old(self).sessions@.len() && exists|i: int|
                0 <= i < final(self).sessions@.len()
                    && (#[trigger] final(self).sessions@[i]).id == session_id
                    && final(self).sessions@[i].status == status,
            r is Err ==> *final(self) == *old(self),
    {
        let n = self.sessions.len();
        let mut k: usize = 0;
        while k < n
            invariant
                n == self.sessions@.len(),
                k <= n,
                forall|t: int| 0 <= t < k ==> self.sessions@[t].id != session_id,
                *self == *old(self),
                old(self).wf(),
            decreases n - k,
        {
            if self.sessions[k].id == session_id {
                let now = now_seconds();
                let ghost pre = self.sessions@;
                let updated = AnalysisSession {
                    status,
                    updated_at: now,
                    ..clone_session(&self.sessions[k])
                };
                let ghost kk = k as int;
                self.sessions[k] = updated;
                proof {
                    assert(self.sessions@ == pre.update(kk, updated));
                    assert(self.sessions@[kk].id == session_id);
                    assert(self.sessions@[kk].status == status);
                    assert forall|i: int, j: int|
                        0 <= i < j < self.sessions@.len() implies self.sessions@[i].id
                        != self.sessions@[j].id by {
                        assert(pre[i].id != pre[j].id);
                    }
                }
                return Result::Ok(());
            }
            k += 1;
        }
        Result::Err(crate::error::Error::NotFound("Session not found".to_owned()))
    }

    /// Summary statistics of the stores: totals, and exact tallies of
    /// entities per type, indicators per threat type and sessions per
    /// status, each occurring key listed once.
    #[verifier::rlimit(100)]
    pub fn get_statistics(&self) -> (stats: IntelligenceStats)
        ensures
            stats.total_entities == self.entities@.len(),
            stats.total_indicators == self.indicators@.len(),
            stats.total_sessions == self.sessions@.len(),
            forall|a: int, b: int|
                0 <= a < b < stats.entity_types@.len() ==> stats.entity_types@[a].0
                    != stats.entity_types@[b].0,
            forall|e: int|
                0 <= e < stats.entity_types@.len() ==> (#[trigger] stats.entity_types@[e]).1
                    as int == count_entity_type(
                    self.entities@,
                    stats.entity_types@[e].0,
                    self.entities@.len() as int,
                ) && stats.entity_types@[e].1 >= 1,
            forall|j: int|
                0 <= j < self.entities@.len() ==> entity_type_tallied(
                    stats.entity_types@,
                    (#[trigger] self.entities@[j]).entity_type,
                ),
            forall|a: int, b: int|
                0 <= a < b < stats.threat_types@.len() ==> stats.threat_types@[a].0
                    != stats.threat_types@[b].0,
            forall|e: int|
                0 <= e < stats.threat_types@.len() ==> (#[trigger] stats.threat_types@[e]).1
                    as int == crate::threat::count_threat_type(
                    self.indicators@,
                    stats.threat_types@[e].0,
                    self.indicators@.len() as int,
                ) && stats.threat_types@[e].1 >= 1,
            forall|j: int|
                0 <= j < self.indicators@.len() ==> crate::threat::type_tallied(
                    stats.threat_types@,
                    (#[trigger] self.indicators@[j]).threat_type,
                ),
            forall|a: int, b: int|
                0 <= a < b < stats.session_statuses@.len() ==> stats.session_statuses@[a].0
                    != stats.session_statuses@[b].0,
            forall|e: int|
                0 <= e < stats.session_statuses@.len()
                    ==> (#[trigger] stats.session_statuses@[e]).1 as int == count_status(
                    self.sessions@,
                    stats.session_statuses@[e].0,
                    self.sessions@.len() as int,
                ) && stats.session_statuses@[e].1 >= 1,
            forall|j: int|
                0 <= j < self.sessions@.len() ==> status_tallied(
                    stats.session_statuses@,
                    (#[trigger] self.sessions@[j]).status,
                ),
    {
        let ghost ents = self.entities@;
        let ghost sess = self.sessions@;
        let ne = self.entities.len();
        let ni = self.indicators.len();
        let ns = self.sessions.len();

        let mut entity_types: Vec<(EntityType, usize)> = Vec::new();
        for z in 0..ne
            invariant
                ne == self.entities@.len(),
                ents == self.entities@,
                forall|a: int, b: int|
                    0 <= a < b < entity_types@.len() ==> entity_types@[a].0
                        != entity_types@[b].0,
                forall|e: int|
                    0 <= e < entity_types@.len() ==> (#[trigger] entity_types@[e]).1 as int
                        == count_entity_type(ents, entity_types@[e].0, z as int) && 1
                        <= entity_types@[e].1 <= z,
                forall|j: int|
                    0 <= j < z ==> entity_type_tallied(
                        entity_types@,
                        (#[trigger] ents[j]).entity_type,
                    ),
        {
            let ty = self.entities[z].entity_type;
            let m = entity_types.len();
            let mut pos: Option<usize> = None;
            for k in 0..m
                invariant
                    m == entity_types@.len(),
                    pos is None ==> forall|t: int| 0 <= t < k ==> entity_types@[t].0 != ty,
                    pos is Some ==> pos->0 < m && entity_types@[pos->0 as int].0 == ty,
            {
                if pos.is_none() && entity_types[k].0 == ty {
                    pos = Some(k);
                }
            }
            let ghost pre = entity_types@;
            match pos {
                Some(p) => {
                    let c = entity_types[p].1;
                    entity_types[p] = (ty, c + 1);
                    proof {
                        assert(entity_types@ == pre.update(p as int, (ty, (c + 1) as usize)));
                        assert forall|j: int|
                            0 <= j < z + 1 implies entity_type_tallied(
                            entity_types@,
                            (#[trigger] ents[j]).entity_type,
                        ) by {
                            if j < z {
                                let e = choose|e: int|
                                    0 <= e < pre.len() && (#[trigger] pre[e]).0
                                        == ents[j].entity_type;
                                assert(entity_types@[e].0 == pre[e].0);
                            } else {
                                assert(entity_types@[p as int].0 == ty);
                            }
                        }
                    }
                },
                None => {
                    proof {
                        assert forall|j: int|
                            0 <= j < z implies (#[trigger] ents[j]).entity_type != ty by {
                            if ents[j].entity_type == ty {
                                assert(entity_type_tallied(pre, ty));
                            }
                        }
                        lemma_count_entity_type_zero(ents, ty, z as int);
                    }
                    entity_types.push((ty, 1));
                    proof {
                        assert forall|j: int|
                            0 <= j < z + 1 implies entity_type_tallied(
                            entity_types@,
                            (#[trigger] ents[j]).entity_type,
                        ) by {
                            if j < z {
                                let e = choose|e: int|
                                    0 <= e < pre.len() && (#[trigger] pre[e]).0
                                        == ents[j].entity_type;
                                assert(entity_types@[e].0 == pre[e].0);
                            } else {
                                assert(entity_types@.last().0 == ty);
                            }
                        }
                    }
                },
            }
        }

        let ghost inds = self.indicators@;
        let mut threat_types: Vec<(crate::models::ThreatType, usize)> = Vec::new();
        for z in 0..ni
            invariant
                ni == self.indicators@.len(),
                inds == self.indicators@,
                forall|a: int, b: int|
                    0 <= a < b < threat_types@.len() ==> threat_types@[a].0
                        != threat_types@[b].0,
                forall|e: int|
                    0 <= e < threat_types@.len() ==> (#[trigger] threat_types@[e]).1 as int
                        == crate::threat::count_threat_type(inds, threat_types@[e].0, z as int)
                        && 1 <= threat_types@[e].1 <= z,
                forall|j: int|
                    0 <= j < z ==> crate::threat::type_tallied(
                        threat_types@,
                        (#[trigger] inds[j]).threat_type,
                    ),
        {
            let ty = self.indicators[z].threat_type;
            let m = threat_types.len();
            let mut pos: Option<usize> = None;
            for k in 0..m
                invariant
                    m == threat_types@.len(),
                    pos is None ==> forall|t: int| 0 <= t < k ==> threat_types@[t].0 != ty,
                    pos is Some ==> pos->0 < m && threat_types@[pos->0 as int].0 == ty,
            {
                if pos.is_none() && threat_types[k].0 == ty {
                    pos = Some(k);
                }
            }
            let ghost pre = threat_types@;
            match pos {
                Some(p) => {
                    let c = threat_types[p].1;
                    threat_types[p] = (ty, c + 1);
                    proof {
                        assert(threat_types@ == pre.update(p as int, (ty, (c + 1) as usize)));
                        assert forall|j: int|
                            0 <= j < z + 1 implies crate::threat::type_tallied(
                            threat_types@,
                            (#[trigger] inds[j]).threat_type,
                        ) by {
                            if j < z {
                                let e = choose|e: int|
                                    0 <= e < pre.len() && (#[trigger] pre[e]).0
                                        == inds[j].threat_type;
                                assert(threat_types@[e].0 == pre[e].0);
                            } else {
                                assert(threat_types@[p as int].0 == ty);
                            }
                        }
                    }
                },
                None => {
                    proof {
                        assert forall|j: int|
                            0 <= j < z implies (#[trigger] inds[j]).threat_type != ty by {
                            if inds[j].threat_type == ty {
                                assert(crate::threat::type_tallied(pre, ty));
                            }
                        }
                        lemma_intel_count_threat_type_zero(inds, ty, z as int);
                    }
                    threat_types.push((ty, 1));
                    proof {
                        assert forall|j: int|
                            0 <= j < z + 1 implies crate::threat::type_tallied(
                            threat_types@,
                            (#[trigger] inds[j]).threat_type,
                        ) by {
                            if j < z {
                                let e = choose|e: int|
                                    0 <= e < pre.len() && (#[trigger] pre[e]).0
                                        == inds[j].threat_type;
                                assert(threat_types@[e].0 == pre[e].0);
                            } else {
                                assert(threat_types@.last().0 == ty);
                            }
                        }
                    }
                },
            }
        }

        let mut session_statuses: Vec<(SessionStatus, usize)> = Vec::new();
        for z in 0..ns
            invariant
                ns == self.sessions@.len(),
                sess == self.sessions@,
                forall|a: int, b: int|
                    0 <= a < b < session_statuses@.len() ==> session_statuses@[a].0
                        != session_statuses@[b].0,
                forall|e: int|
                    0 <= e < session_statuses@.len() ==> (#[trigger] session_statuses@[e]).1
                        as int == count_status(sess, session_statuses@[e].0, z as int) && 1
                        <= session_statuses@[e].1 <= z,
                forall|j: int|
                    0 <= j < z ==> status_tallied(session_statuses@, (#[trigger] sess[j]).status),
        {
            let st = self.sessions[z].status;
            let m = session_statuses.len();
            let mut pos: Option<usize> = None;
            for k in 0..m
                invariant
                    m == session_statuses@.len(),
                    pos is None ==> forall|t: int| 0 <= t < k ==> session_statuses@[t].0 != st,
                    pos is Some ==> pos->0 < m && session_statuses@[pos->0 as int].0 == st,
            {
                if pos.is_none() && session_statuses[k].0 == st {
                    pos = Some(k);
                }
            }
            let ghost pre = session_statuses@;
            match pos {
                Some(p) => {
                    let c = session_statuses[p].1;
                    session_statuses[p] = (st, c + 1);
                    proof {
                        assert(session_statuses@ == pre.update(p as int, (st, (c + 1) as usize)));
                        assert forall|j: int|
                            0 <= j < z + 1 implies status_tallied(
                            session_statuses@,
                            (#[trigger] sess[j]).status,
                        ) by {
                            if j < z {
                                let e = choose|e: int|
                                    0 <= e < pre.len() && (#[trigger] pre[e]).0 == sess[j].status;
                                assert(session_statuses@[e].0 == pre[e].0);
                            } else {
                                assert(session_statuses@[p as int].0 == st);
                            }
                        }
                    }
                },
                None => {
                    proof {
                        assert forall|j: int|
                            0 <= j < z implies (#[trigger] sess[j]).status != st by {
                            if sess[j].status == st {
                                assert(status_tallied(pre, st));
                            }
                        }
                        lemma_count_status_zero(sess, st, z as int);
                    }
                    session_statuses.push((st, 1));
                    proof {
                        assert forall|j: int|
                            0 <= j < z + 1 implies status_tallied(
                            session_statuses@,
                            (#[trigger] sess[j]).status,
                        ) by {
                            if j < z {
                                let e = choose|e: int|
                                    0 <= e < pre.len() && (#[trigger] pre[e]).0 == sess[j].status;
                                assert(session_statuses@[e].0 == pre[e].0);
                            } else {
                                assert(session_statuses@.last().0 == st);
                            }
                        }
                    }
                },
            }
        }

        IntelligenceStats {
            total_entities: ne,
            total_indicators: ni,
            total_sessions: ns,
            entity_types,
            threat_types,
            session_statuses,
        }
    }
}

impl Default for IntelligenceEngine {
    /// An engine with empty stores.
    fn default() -> (engine: IntelligenceEngine)
        ensures
            engine.entities@.len() == 0,
            engine.indicators@.len() == 0,
            engine.sessions@.len() == 0,
            engine.wf(),
    {
        IntelligenceEngine::new()
    }
}

/// Number of the first `k` entities of the given type.
pub open spec fn count_entity_type(s: Seq<IntelEntity>, t: EntityType, k: int) -> int
    decreases k,
{
    if k <= 0 {
        0
    } else {
        count_entity_type(s, t, k - 1) + if s[k - 1].entity_type == t {
            1int
        } else {
            0int
        }
    }
}

/// Number of the first `k` sessions in the given status.
pub open spec fn count_status(s: Seq<AnalysisSession>, st: SessionStatus, k: int) -> int
    decreases k,
{
    if k <= 0 {
        0
    } else {
        count_status(s, st, k - 1) + if s[k - 1].status == st {
            1int
        } else {
            0int
        }
    }
}

proof fn lemma_count_entity_type_zero(s: Seq<IntelEntity>, t: EntityType, k: int)
    requires
        forall|j: int| 0 <= j < k ==> (#[trigger] s[j]).entity_type != t,
    ensures
        count_entity_type(s, t, k) == 0,
    decreases k,
{
    if k > 0 {
        lemma_count_entity_type_zero(s, t, k - 1);
    }
}

proof fn lemma_intel_count_threat_type_zero(
    s: Seq<ThreatIndicator>,
    t: crate::models::ThreatType,
    k: int,
)
    requires
        forall|j: int| 0 <= j < k ==> (#[trigger] s[j]).threat_type != t,
    ensures
        crate::threat::count_threat_type(s, t, k) == 0,
    decreases k,
{
    if k > 0 {
        lemma_intel_count_threat_type_zero(s, t, k - 1);
    }
}

proof fn lemma_count_status_zero(s: Seq<AnalysisSession>, st: SessionStatus, k: int)
    requires
        forall|j: int| 0 <= j < k ==> (#[trigger] s[j]).status != st,
    ensures
        count_status(s, st, k) == 0,
    decreases k,
{
    if k > 0 {
        lemma_count_status_zero(s, st, k - 1);
    }
}

/// A tally over entity types lists the key.
pub open spec fn entity_type_tallied(tt: Seq<(EntityType, usize)>, t: EntityType) -> bool {
    exists|e: int| 0 <= e < tt.len() && (#[trigger] tt[e]).0 == t
}

/// A tally over session statuses lists the key.
pub open spec fn status_tallied(tt: Seq<(SessionStatus, usize)>, st: SessionStatus) -> bool {
    exists|e: int| 0 <= e < tt.len() && (#[trigger] tt[e]).0 == st
}

} // verus!
