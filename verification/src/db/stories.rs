//! Stories: the rows of a story's world (characters, locations, NPCs,
//! scenes with their dialogue and images), and the rules applied before
//! they are stored — names are required, a scene's participants count
//! once, and a participant's log line is written from the scene.

use vstd::prelude::*;

use crate::error::CoreError;
use crate::text::{dedup_first, str_eq, trim, trim_str, views};

verus! {

/// A story.
#[derive(Debug, Clone)]
pub struct Story {
    pub id: String,
    pub name: String,
    pub setting: String,
    pub art_style: String,
    pub premise: String,
    pub created_at: String,
}

/// The editable fields of a story.
#[derive(Debug, Clone, Default)]
pub struct StoryUpdate {
    pub name: String,
    pub setting: String,
    pub art_style: String,
    pub premise: String,
}

/// A character of a story.
#[derive(Debug, Clone)]
pub struct Character {
    pub id: String,
    pub story_id: String,
    pub name: String,
    pub traits: String,
    pub backstory: String,
    pub alignment: String,
    pub portrait_job_id: Option<String>,
    pub inventory: Vec<String>,
    pub created_at: String,
}

/// What a caller supplies to create a character.
#[derive(Debug, Clone)]
pub struct NewCharacter {
    pub story_id: String,
    pub name: String,
    pub traits: String,
    pub backstory: String,
    pub alignment: String,
}

/// The editable fields of a character.
#[derive(Debug, Clone, Default)]
pub struct CharacterUpdate {
    pub name: String,
    pub traits: String,
    pub backstory: String,
    pub alignment: String,
}

/// How one character stands to another.
#[derive(Debug, Clone, PartialEq)]
pub struct CharacterRelationship {
    pub id: String,
    pub character_id: String,
    pub related_character_id: String,
    pub note: String,
    pub created_at: String,
}

/// One line of a character's log.
#[derive(Debug, Clone, PartialEq)]
pub struct CharacterLogEntry {
    pub id: String,
    pub character_id: String,
    pub scene_id: String,
    pub created_at: String,
    pub text: String,
}

/// A place in a story.
#[derive(Debug, Clone)]
pub struct Location {
    pub id: String,
    pub story_id: String,
    pub name: String,
    pub description: String,
    pub reference_job_id: Option<String>,
    pub created_at: String,
}

/// What a caller supplies to create a location.
#[derive(Debug, Clone)]
pub struct NewLocation {
    pub story_id: String,
    pub name: String,
    pub description: String,
}

/// The editable fields of a location.
#[derive(Debug, Clone, Default)]
pub struct LocationUpdate {
    pub name: String,
    pub description: String,
}

/// A non-player character.
#[derive(Debug, Clone)]
pub struct Npc {
    pub id: String,
    pub story_id: String,
    pub name: String,
    pub role: String,
    pub location_id: Option<String>,
    pub description: String,
    pub created_at: String,
}

/// What a caller supplies to create an NPC.
#[derive(Debug, Clone)]
pub struct NewNpc {
    pub story_id: String,
    pub name: String,
    pub role: String,
    pub location_id: Option<String>,
    pub description: String,
}

/// The editable fields of an NPC.
#[derive(Debug, Clone, Default)]
pub struct NpcUpdate {
    pub name: String,
    pub role: String,
    pub location_id: Option<String>,
    pub description: String,
}

/// An image rendered for a scene; at most one per scene is canonical.
#[derive(Debug, Clone, PartialEq)]
pub struct SceneImage {
    pub id: String,
    pub scene_id: String,
    pub job_id: String,
    pub is_canonical: bool,
    pub created_at: String,
}

/// A scene of a story.
#[derive(Debug, Clone)]
pub struct Scene {
    pub id: String,
    pub story_id: String,
    pub location_id: Option<String>,
    pub narrative: String,
    pub redline: String,
    pub position: i64,
    pub created_at: String,
}

/// One line of a scene's dialogue.
#[derive(Debug, Clone, PartialEq)]
pub struct DialogueLine {
    pub id: String,
    pub scene_id: String,
    pub character_id: String,
    pub position: i64,
    pub text: String,
}

/// A dialogue line as supplied.
#[derive(Debug, Clone)]
pub struct NewDialogueLine {
    pub character_id: String,
    pub text: String,
}

/// What a caller supplies to create a scene.
#[derive(Debug, Clone)]
pub struct NewScene {
    pub story_id: String,
    pub location_id: Option<String>,
    pub narrative: String,
    pub redline: String,
    pub participant_ids: Vec<String>,
    pub dialogue: Vec<NewDialogueLine>,
}

/// The editable fields of a scene.
#[derive(Debug, Clone, Default)]
pub struct SceneUpdate {
    pub location_id: Option<String>,
    pub narrative: String,
    pub redline: String,
    pub participant_ids: Vec<String>,
    pub dialogue: Vec<NewDialogueLine>,
}

/// The message refusing an empty name of a `what`.
pub open spec fn empty_name_message(what: Seq<char>) -> Seq<char> {
    what + " name must not be empty"@
}

/// A required name, trimmed: `what` names the kind of record
/// (`story`, `character`, `location`, `npc`) for the refusal.
pub fn required_name(what: &str, name: &str) -> (r: Result<String, CoreError>)
    ensures
        match r {
            Ok(n) => n@ == trim(name@) && trim(name@).len() > 0,
            Err(e) => trim(name@).len() == 0 && e.config_message() == Some(empty_name_message(what@)),
        },
{
    let t = trim_str(name);
    if t.unicode_len() == 0 {
        let mut m = String::from_str(what);
        m.append(" name must not be empty");
        return Err(CoreError::Config(m));
    }
    Ok(String::from_str(t))
}

/// The longest narrative snippet a log line quotes, in characters.
pub const LOG_SNIPPET_CHARS: usize = 140;

/// The log line written for each participant of a scene: the redline when
/// there is one, else the start of the narrative (cut at 140 characters,
/// with an ellipsis when cut), else a bare note.
pub open spec fn log_text(redline: Seq<char>, narrative: Seq<char>) -> Seq<char> {
    let r = trim(redline);
    let n = trim(narrative);
    if r.len() > 0 {
        "Appeared in a scene: "@ + r
    } else if n.len() == 0 {
        "Appeared in a scene."@
    } else if n.len() > LOG_SNIPPET_CHARS {
        "Appeared in a scene: "@ + n.take(LOG_SNIPPET_CHARS as int) + "\u{2026}"@
    } else {
        "Appeared in a scene: "@ + n
    }
}

/// The Character Log text auto-written for a participant of a scene.
pub fn auto_log_text(redline: &str, narrative: &str) -> (r: String)
    ensures
        r@ == log_text(redline@, narrative@),
{
    let r = trim_str(redline);
    if r.unicode_len() > 0 {
        let mut s = String::from_str("Appeared in a scene: ");
        s.append(r);
        return s;
    }
    let n = trim_str(narrative);
    let len = n.unicode_len();
    if len == 0 {
        return String::from_str("Appeared in a scene.");
    }
    let mut s = String::from_str("Appeared in a scene: ");
    if len > LOG_SNIPPET_CHARS {
        s.append(n.substring_char(0, LOG_SNIPPET_CHARS));
        s.append("\u{2026}");
    } else {
        s.append(n);
    }
    s
}

/// `ids` with repeats dropped, first occurrences kept in order.
pub fn dedup(ids: &Vec<String>) -> (r: Vec<String>)
    ensures
        views(r@) == dedup_first(views(ids@)),
{
    let ghost v = views(ids@);
    let mut out: Vec<String> = Vec::new();
    let mut i: usize = 0;
    assert(v.take(0) =~= Seq::<Seq<char>>::empty());
    while i < ids.len()
        invariant
            v == views(ids@),
            i <= ids@.len(),
            views(out@) == dedup_first(v.take(i as int)),
        decreases ids@.len() - i,
    {
        assert(v.take(i + 1).drop_last() =~= v.take(i as int));
        assert(v.take(i + 1).last() == ids@[i as int]@);
        let mut seen = false;
        let mut k: usize = 0;
        while k < out.len()
            invariant
                i < ids@.len(),
                k <= out@.len(),
                seen == exists|j: int| 0 <= j < k && out@[j]@ == ids@[i as int]@,
            decreases out@.len() - k,
        {
            if str_eq(out[k].as_str(), ids[i].as_str()) {
                seen = true;
            }
            k = k + 1;
        }
        proof {
            let w = views(out@);
            if seen {
                let j = choose|j: int| 0 <= j < k && out@[j]@ == ids@[i as int]@;
                assert(w[j] == ids@[i as int]@);
            }
            if w.contains(ids@[i as int]@) {
                let j = choose|j: int| 0 <= j < w.len() && w[j] == ids@[i as int]@;
                assert(out@[j]@ == ids@[i as int]@);
            }
        }
        if !seen {
            let ghost prev = out@;
            out.push(ids[i].clone());
            assert(views(out@) =~= views(prev).push(ids@[i as int]@));
        }
        i = i + 1;
    }
    assert(v.take(i as int) =~= v);
    out
}

/// The ids of `s`, in order, that are not among `before`.
pub open spec fn not_among(s: Seq<Seq<char>>, before: Seq<Seq<char>>) -> Seq<Seq<char>>
    decreases s.len(),
{
    if s.len() == 0 {
        s
    } else if before.contains(s.last()) {
        not_among(s.drop_last(), before)
    } else {
        not_among(s.drop_last(), before).push(s.last())
    }
}

/// The participants a scene update adds: the requested ids without
/// repeats (first occurrence kept), in order, that were not in the scene
/// before. Each of them gets an automatic Character Log entry.
pub fn newly_added(before: &[String], requested: &Vec<String>) -> (r: Vec<String>)
    ensures
        views(r@) == not_among(dedup_first(views(requested@)), views(before@)),
{
    let ids = dedup(requested);
    let ghost d = views(ids@);
    let ghost b = views(before@);
    let mut out: Vec<String> = Vec::new();
    let mut i: usize = 0;
    assert(d.take(0) =~= Seq::<Seq<char>>::empty());
    while i < ids.len()
        invariant
            i <= ids@.len(),
            d == views(ids@),
            b == views(before@),
            views(out@) == not_among(d.take(i as int), b),
        decreases ids@.len() - i,
    {
        let mut found = false;
        let mut k: usize = 0;
        while k < before.len()
            invariant
                k <= before@.len(),
                i < ids@.len(),
                b == views(before@),
                found == exists|j: int| 0 <= j < k && b[j] == ids@[i as int]@,
            decreases before@.len() - k,
        {
            assert(b[k as int] == before@[k as int]@);
            if str_eq(before[k].as_str(), ids[i].as_str()) {
                found = true;
            }
            k = k + 1;
        }
        assert(d.take(i + 1).drop_last() =~= d.take(i as int));
        assert(d.take(i + 1).last() == ids@[i as int]@);
        assert(found == b.contains(ids@[i as int]@)) by {
            if b.contains(ids@[i as int]@) {
                let j = choose|j: int| 0 <= j < b.len() && b[j] == ids@[i as int]@;
                assert(0 <= j < k);
            }
        }
        if !found {
            let ghost prev = out@;
            out.push(ids[i].clone());
            assert(views(out@) =~= views(prev).push(ids@[i as int]@));
        }
        i = i + 1;
    }
    assert(d.take(i as int) =~= d);
    out
}

} // verus!
