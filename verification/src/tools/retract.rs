//! Retracting a decision, a constraint or an episode: which entity types
//! exist, what is reported when nothing was closed, and the correction note.

use vstd::prelude::*;

use crate::text::push_str;

verus! {

/// Request to retract an entity.
#[derive(Debug)]
pub struct RetractParams {
    /// Absolute path to the repository root.
    pub repo_path: String,
    /// Type of entity to retract: "decision", "constraint", or "episode".
    pub entity_type: String,
    /// UUID of the entity to retract.
    pub entity_id: String,
    /// Human-readable reason for the retraction.
    pub reason: String,
    /// Optional correction text, recorded as an audit note.
    pub replacement: Option<String>,
}

/// What a retraction closed.
#[derive(Debug)]
pub struct RetractResult {
    /// Whether at least one active entity was closed.
    pub retracted: bool,
    pub entity_type: String,
    pub entity_id: String,
    pub retracted_at: String,
    pub reason: String,
    /// Number of decisions closed.
    pub decisions_closed: i64,
    /// Number of constraints closed.
    pub constraints_closed: i64,
    /// ID of the correction episode, if a replacement was given.
    pub replacement_episode_id: Option<String>,
    pub warnings: Vec<String>,
}

/// The kinds of entity that can be retracted.
#[derive(Debug, Clone, Copy, PartialEq, Eq, Structural)]
pub enum EntityKind {
    Decision,
    Constraint,
    Episode,
}

impl EntityKind {
    /// The name of the kind.
    pub open spec fn name(self) -> Seq<char> {
        match self {
            EntityKind::Decision => "decision"@,
            EntityKind::Constraint => "constraint"@,
            EntityKind::Episode => "episode"@,
        }
    }

    /// The name of the kind.
    pub fn as_str(&self) -> (s: &'static str)
        ensures
            s@ == self.name(),
    {
        match self {
            EntityKind::Decision => "decision",
            EntityKind::Constraint => "constraint",
            EntityKind::Episode => "episode",
        }
    }
}

/// Reads an entity type; refused with the explanation when it is none of
/// `decision`, `constraint`, `episode`.
pub fn parse_entity_type(t: &str) -> (r: Result<EntityKind, String>)
    ensures
        t@ == "decision"@ ==> r == Ok::<EntityKind, String>(EntityKind::Decision),
        t@ == "constraint"@ ==> r == Ok::<EntityKind, String>(EntityKind::Constraint),
        t@ == "episode"@ ==> r == Ok::<EntityKind, String>(EntityKind::Episode),
        t@ != "decision"@ && t@ != "constraint"@ && t@ != "episode"@ ==> (r matches Err(e) && e@
            == "unknown entity type '"@ + t@
            + "'; must be 'decision', 'constraint', or 'episode'"@),
{
    proof {
        reveal_strlit("decision");
        reveal_strlit("constraint");
        reveal_strlit("episode");
        assert("decision"@.len() == 8);
        assert("constraint"@.len() == 10);
        assert("episode"@.len() == 7);
    }
    if crate::text::str_eq(t, "decision") {
        Ok(EntityKind::Decision)
    } else if crate::text::str_eq(t, "constraint") {
        Ok(EntityKind::Constraint)
    } else if crate::text::str_eq(t, "episode") {
        Ok(EntityKind::Episode)
    } else {
        let mut e = String::from_str("unknown entity type '");
        push_str(&mut e, t);
        push_str(&mut e, "'; must be 'decision', 'constraint', or 'episode'");
        Err(e)
    }
}

/// The warning for a retraction that closed nothing, if it closed nothing:
/// a decision or constraint that was not found or already retracted, an
/// episode with nothing active.
pub fn retraction_warning(kind: EntityKind, entity_id: &str, decisions_closed: i64, constraints_closed: i64) -> (w: Option<String>)
    ensures
        kind == EntityKind::Decision ==> (w is Some <==> decisions_closed == 0),
        kind == EntityKind::Constraint ==> (w is Some <==> constraints_closed == 0),
        kind == EntityKind::Episode ==> (w is Some <==> decisions_closed == 0 && constraints_closed == 0),
        w matches Some(t) ==> t@ == (match kind {
            EntityKind::Episode => "episode '"@ + entity_id@ + "' had no active decisions or constraints to retract"@,
            _ => kind.name() + " '"@ + entity_id@ + "' was not found or was already retracted"@,
        }),
{
    let nothing = match kind {
        EntityKind::Decision => decisions_closed == 0,
        EntityKind::Constraint => constraints_closed == 0,
        EntityKind::Episode => decisions_closed == 0 && constraints_closed == 0,
    };
    if !nothing {
        return None;
    }
    let mut w = String::new();
    match kind {
        EntityKind::Episode => {
            push_str(&mut w, "episode '");
            push_str(&mut w, entity_id);
            push_str(&mut w, "' had no active decisions or constraints to retract");
        },
        _ => {
            push_str(&mut w, kind.as_str());
            push_str(&mut w, " '");
            push_str(&mut w, entity_id);
            push_str(&mut w, "' was not found or was already retracted");
        },
    }
    Some(w)
}

/// The text of the correction note recorded with a replacement.
pub fn correction_content(kind: EntityKind, entity_id: &str, replacement: &str, reason: &str) -> (c: String)
    ensures
        c@ == "Retraction correction for "@ + kind.name() + " '"@ + entity_id@ + "': "@ + replacement@
            + "\n\nReason for retraction: "@ + reason@,
{
    let mut c = String::from_str("Retraction correction for ");
    push_str(&mut c, kind.as_str());
    push_str(&mut c, " '");
    push_str(&mut c, entity_id);
    push_str(&mut c, "': ");
    push_str(&mut c, replacement);
    push_str(&mut c, "\n\nReason for retraction: ");
    push_str(&mut c, reason);
    c
}

/// A retraction counts as done when it closed at least one decision or
/// constraint.
pub fn was_retracted(decisions_closed: i64, constraints_closed: i64) -> (b: bool)
    ensures
        b == (decisions_closed > 0 || constraints_closed > 0),
{
    decisions_closed > 0 || constraints_closed > 0
}

} // verus!
