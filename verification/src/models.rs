//! Core data models for intelligence analysis.
//!
//! All quantities are integers: confidences are fixed-point values in
//! `0 ..= CONF_SCALE`, timestamps are seconds since the Unix epoch,
//! identifiers are 128-bit values, and locations are WGS84 coordinates in
//! microdegrees.

use vstd::prelude::*;

use crate::trusted::{now_seconds, random_id};
use crate::CONF_SCALE;

verus! {

/// Types of intelligence entities.
#[derive(Debug, Clone, Copy, PartialEq, Eq, Structural)]
pub enum EntityType {
    // Network entities
    IpAddress,
    Domain,
    Url,
    Email,
    // Threat entities
    Malware,
    ThreatActor,
    Campaign,
    Vulnerability,
    // Geospatial entities
    Location,
    Facility,
    Vehicle,
    // Human entities
    Person,
    Organization,
    Group,
    // Communication entities
    PhoneNumber,
    SocialMedia,
    Document,
    // Generic
    Unknown,
}

#[derive(Debug, Clone, Copy, PartialEq, Eq, Structural)]
pub enum RelationshipType {
    Controls,
    Communicates,
    Hosts,
    Uses,
    Located,
    Owns,
    Associates,
    Targets,
    Delivers,
    Contains,
    Related,
}

#[derive(Debug, Clone, Copy, PartialEq, Eq, Structural)]
pub enum IndicatorType {
    Hash,
    IpAddress,
    Domain,
    Url,
    Email,
    Registry,
    Filename,
    Mutex,
    Certificate,
    Yara,
    Sigma,
}

#[derive(Debug, Clone, Copy, PartialEq, Eq, Structural)]
pub enum ThreatType {
    Malware,
    Botnet,
    Phishing,
    CommandControl,
    Reconnaissance,
    Weaponization,
    Delivery,
    Exploitation,
    Installation,
    Persistence,
    LateralMovement,
    DataExfiltration,
    Impact,
}

#[derive(Debug, Clone, Copy, PartialEq, Eq, Structural)]
pub enum ThreatSeverity {
    Critical,
    High,
    Medium,
    Low,
    Info,
}

impl ThreatSeverity {
    /// Position of the severity in the declaration order, `Critical` first.
    pub open spec fn spec_rank(&self) -> int {
        match self {
            ThreatSeverity::Critical => 0,
            ThreatSeverity::High => 1,
            ThreatSeverity::Medium => 2,
            ThreatSeverity::Low => 3,
            ThreatSeverity::Info => 4,
        }
    }

    /// Executable form of [`Self::spec_rank`].
    pub fn rank(&self) -> (r: u8)
        ensures
            r == self.spec_rank(),
    {
        match self {
            ThreatSeverity::Critical => 0,
            ThreatSeverity::High => 1,
            ThreatSeverity::Medium => 2,
            ThreatSeverity::Low => 3,
            ThreatSeverity::Info => 4,
        }
    }
}

#[derive(Debug, Clone, Copy, PartialEq, Eq, Structural)]
pub enum TrafficLightProtocol {
    /// No sharing
    Red,
    /// Limited sharing
    Amber,
    /// Community sharing
    Green,
    /// Unlimited sharing
    White,
}

#[derive(Debug, Clone, Copy, PartialEq, Eq, Structural)]
pub enum SessionStatus {
    Draft,
    Active,
    Paused,
    Completed,
    Archived,
}

#[derive(Debug, Clone, Copy, PartialEq, Eq, Structural)]
pub enum SessionPriority {
    Critical,
    High,
    Medium,
    Low,
}

#[derive(Debug, Clone, Copy, PartialEq, Eq, Structural)]
pub enum Classification {
    Unclassified,
    Confidential,
    Secret,
    TopSecret,
}

/// A WGS84 coordinate in microdegrees (one millionth of a degree).
#[derive(Debug, Clone, Copy, PartialEq, Eq, Structural)]
pub struct GeoPoint {
    pub lat_micro: i64,
    pub lon_micro: i64,
}

/// Relationship between entities.
#[derive(Debug, Clone)]
pub struct EntityRelationship {
    pub target_entity_id: u128,
    pub relationship_type: RelationshipType,
    pub confidence: u64,
    pub first_seen: i64,
    pub last_seen: i64,
    pub source: String,
}

/// Intelligence entity representing any analyzed object.
#[derive(Debug, Clone)]
pub struct IntelEntity {
    pub id: u128,
    pub entity_type: EntityType,
    pub name: String,
    pub description: Option<String>,
    /// Fixed-point confidence in `0 ..= CONF_SCALE`.
    pub confidence: u64,
    pub source: String,
    pub created_at: i64,
    pub updated_at: i64,
    pub tags: Vec<String>,
    /// Key-value attributes; keys are unique.
    pub attributes: Vec<(String, String)>,
    pub location: Option<GeoPoint>,
    pub relationships: Vec<EntityRelationship>,
}

/// Keys of an attribute list are pairwise distinct.
pub open spec fn attrs_keys_unique(attrs: Seq<(String, String)>) -> bool {
    forall|i: int, j: int|
        0 <= i < j < attrs.len() ==> attrs[i].0@ != attrs[j].0@
}

impl Default for IntelEntity {
    /// An unnamed, untyped record with the default confidence of one
    /// half, a freshly drawn identifier and creation time read from the
    /// clock.
    fn default() -> (e: IntelEntity)
        ensures
            e.entity_type == EntityType::Unknown,
            e.name@.len() == 0,
            e.source@.len() == 0,
            e.confidence == CONF_SCALE / 2,
            e.description is None,
            e.tags@.len() == 0,
            e.attributes@.len() == 0,
            e.location is None,
            e.relationships@.len() == 0,
            e.wf(),
    {
        proof {
            reveal_strlit("");
        }
        IntelEntity::new(EntityType::Unknown, "", "")
    }
}

impl IntelEntity {
    /// The record is well formed: its confidence is in range and its
    /// attribute keys are unique.
    pub open spec fn wf(&self) -> bool {
        &&& self.confidence <= CONF_SCALE
        &&& attrs_keys_unique(self.attributes@)
    }

    /// Create a new entity of the given type, name and source, with a
    /// freshly drawn identifier, the default confidence of one half, and
    /// creation time read from the clock.
    pub fn new(entity_type: EntityType, name: &str, source: &str) -> (e: IntelEntity)
        ensures
            e.entity_type == entity_type,
            e.name@ == name@,
            e.source@ == source@,
            e.confidence == CONF_SCALE / 2,
            e.description is None,
            e.tags@.len() == 0,
            e.attributes@.len() == 0,
            e.location is None,
            e.relationships@.len() == 0,
            e.created_at == e.updated_at,
            e.wf(),
    {
        let now = now_seconds();
        IntelEntity {
            id: random_id(),
            entity_type,
            name: name.to_owned(),
            description: None,
            confidence: CONF_SCALE / 2,
            source: source.to_owned(),
            created_at: now,
            updated_at: now,
            tags: Vec::new(),
            attributes: Vec::new(),
            location: None,
            relationships: Vec::new(),
        }
    }

    /// Add a relationship to another entity; the sighting times and the
    /// update time are read from the clock.
    pub fn add_relationship(
        &mut self,
        target_id: u128,
        rel_type: RelationshipType,
        confidence: u64,
        source: String,
    )
        ensures
            final(self).relationships@.len() == old(self).relationships@.len() + 1,
            forall|k: int|
                0 <= k < old(self).relationships@.len() ==> final(self).relationships@[k]
                    == old(self).relationships@[k],
            final(self).relationships@.last().target_entity_id == target_id,
            final(self).relationships@.last().relationship_type == rel_type,
            final(self).relationships@.last().confidence == confidence,
            final(self).relationships@.last().source == source,
            final(self).relationships@.last().first_seen
                == final(self).relationships@.last().last_seen,
            final(self).id == old(self).id,
            final(self).entity_type == old(self).entity_type,
            final(self).name == old(self).name,
            final(self).description == old(self).description,
            final(self).confidence == old(self).confidence,
            final(self).source == old(self).source,
            final(self).created_at == old(self).created_at,
            final(self).tags == old(self).tags,
            final(self).attributes == old(self).attributes,
            final(self).location == old(self).location,
    {
        let now = now_seconds();
        self.relationships.push(EntityRelationship {
            target_entity_id: target_id,
            relationship_type: rel_type,
            confidence,
            first_seen: now,
            last_seen: now,
            source,
        });
        self.updated_at = now;
    }

    /// Update the confidence score, clamped into the valid range; the
    /// update time is read from the clock.
    pub fn update_confidence(&mut self, new_confidence: u64)
        ensures
            final(self).confidence == if new_confidence > CONF_SCALE {
                CONF_SCALE as int
            } else {
                new_confidence as int
            },
            final(self).confidence <= CONF_SCALE,
            final(self).id == old(self).id,
            final(self).entity_type == old(self).entity_type,
            final(self).name == old(self).name,
            final(self).description == old(self).description,
            final(self).source == old(self).source,
            final(self).created_at == old(self).created_at,
            final(self).tags == old(self).tags,
            final(self).attributes == old(self).attributes,
            final(self).location == old(self).location,
            final(self).relationships == old(self).relationships,
    {
        self.confidence = crate::clamp_confidence(new_confidence);
        self.updated_at = now_seconds();
    }
}

/// Threat intelligence indicator.
#[derive(Debug, Clone)]
pub struct ThreatIndicator {
    pub id: u128,
    pub indicator_type: IndicatorType,
    pub value: String,
    pub threat_type: ThreatType,
    pub severity: ThreatSeverity,
    pub confidence: u64,
    pub tlp: TrafficLightProtocol,
    pub source: String,
    pub first_seen: i64,
    pub last_seen: i64,
    pub valid_until: Option<i64>,
    pub context: Option<String>,
    pub mitre_tactics: Vec<String>,
    pub mitre_techniques: Vec<String>,
}

/// Analysis session.
#[derive(Debug, Clone)]
pub struct AnalysisSession {
    pub id: u128,
    pub name: String,
    pub description: Option<String>,
    pub analyst_id: u128,
    pub created_at: i64,
    pub updated_at: i64,
    pub status: SessionStatus,
    pub priority: SessionPriority,
    pub tags: Vec<String>,
    pub entities: Vec<u128>,
    pub indicators: Vec<u128>,
}

/// Intelligence report.
#[derive(Debug, Clone)]
pub struct IntelReport {
    pub id: u128,
    pub title: String,
    pub summary: String,
    /// Markdown body of the report.
    pub content: String,
    pub classification: Classification,
    pub analyst_id: u128,
    pub session_id: Option<u128>,
    pub created_at: i64,
    pub published_at: Option<i64>,
    pub tags: Vec<String>,
    pub entities_referenced: Vec<u128>,
    pub indicators_referenced: Vec<u128>,
}

} // verus!
