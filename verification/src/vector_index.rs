//! The decisions and decodings around the external vector index.
//!
//! The wire client itself is an external collaborator; what stands here
//! is the logic around its calls: the URL the client is built with, the
//! decision whether the schema still needs the notes class, and the
//! resolution of an explore result's beacons back into stored notes.

use vstd::prelude::*;
use crate::errors::DynamoRepositoryError;
use crate::ids::{spec_parse_id, NoteId};
use crate::notes::{note_key, note_of_item, NoteEntity, NoteModel};
use crate::service::NotesService;
use crate::table::{spec_find_row, TableModel};

verus! {

/// The one failure the vector-index boundary surfaces.
#[derive(Clone, Copy, PartialEq, Eq, Structural, Debug)]
pub enum WeaviateServiceError {
    WeaviateClientError,
}

/// The base URL of the vector index, from its host name and port.
pub fn weaviate_url(hostname: &str, port: &str) -> (r: String)
    ensures
        r@ == "http://"@ + hostname@ + ":"@ + port@,
{
    let mut r = String::from_str("http://");
    r.append(hostname);
    r.append(":");
    r.append(port);
    proof {
        assert(r@ =~= "http://"@ + hostname@ + ":"@ + port@);
    }
    r
}

/// Whether the schema still lacks the notes class, so that it must be
/// created before anything is indexed.
pub fn needs_note_class(class_names: &Vec<String>) -> (r: bool)
    ensures
        r == !(exists|i: int|
            0 <= i < class_names@.len() && (#[trigger] class_names@[i])@ == "Note"@),
{
    let probe = String::from_str("Note");
    let mut i: usize = 0;
    while i < class_names.len()
        invariant
            probe@ == "Note"@,
            i <= class_names@.len(),
            forall|k: int| 0 <= k < i ==> (#[trigger] class_names@[k])@ != "Note"@,
        decreases class_names@.len() - i,
    {
        if class_names[i].eq(&probe) {
            return false;
        }
        i = i + 1;
    }
    true
}

/// What stands after the last `/` of a beacon: the referenced object's
/// identifier, or the whole beacon when it holds no `/`.
pub open spec fn suffix_after_slash(s: Seq<char>) -> Seq<char>
    decreases s.len(),
{
    if s.len() == 0 {
        s
    } else if s.last() == '/' {
        Seq::empty()
    } else {
        suffix_after_slash(s.drop_last()).push(s.last())
    }
}

/// When no `/` occurs at or after a boundary that sits just past a `/`
/// (or at the start), the suffix after the last slash is everything from
/// that boundary on.
proof fn lemma_suffix_from(s: Seq<char>, i: int)
    requires
        0 <= i <= s.len(),
        i == 0 || s[i - 1] == '/',
        forall|j: int| i <= j < s.len() ==> s[j] != '/',
    ensures
        suffix_after_slash(s) == s.skip(i),
    decreases s.len(),
{
    if s.len() == i {
        if s.len() == 0 {
            assert(s.skip(0) =~= s);
        } else {
            assert(s.last() == '/');
            assert(s.skip(i) =~= Seq::<char>::empty());
        }
    } else {
        assert(s.last() != '/');
        let shorter = s.drop_last();
        assert(forall|j: int| i <= j < shorter.len() ==> shorter[j] != '/');
        if i > 0 {
            assert(shorter[i - 1] == s[i - 1]);
        }
        lemma_suffix_from(shorter, i);
        assert(suffix_after_slash(s) == suffix_after_slash(shorter).push(s.last()));
        assert(shorter.skip(i).push(s.last()) =~= s.skip(i));
    }
}

/// The note identifier a beacon references: its last path segment,
/// parsed as a canonical identifier.
pub fn beacon_note_id(beacon: &str) -> (r: Option<NoteId>)
    ensures
        r == match spec_parse_id(suffix_after_slash(beacon@)) {
            Some(v) => Some(NoteId { value: v }),
            None => None::<NoteId>,
        },
{
    let n = beacon.unicode_len();
    let mut cut: usize = 0;
    let mut j: usize = 0;
    while j < n
        invariant
            n == beacon@.len(),
            j <= n,
            cut <= j,
            cut == 0 || beacon@[cut - 1] == '/',
            forall|k: int| cut <= k < j ==> beacon@[k] != '/',
        decreases n - j,
    {
        if beacon.get_char(j) == '/' {
            cut = j + 1;
        }
        j = j + 1;
    }
    proof {
        lemma_suffix_from(beacon@, cut as int);
    }
    let segment = beacon.substring_char(cut, n);
    NoteId::parse(segment)
}

/// What resolving a list of beacons against the store yields: each
/// beacon's identifier is parsed and looked up in order; a malformed
/// beacon or stored item is a `DeserializationError`, a beacon naming no
/// stored note a `NotFoundError`, and the first failure aborts the
/// whole resolution.
pub open spec fn spec_collect_notes(rows: TableModel, beacons: Seq<Seq<char>>) -> Result<
    Seq<NoteModel>,
    DynamoRepositoryError,
>
    decreases beacons.len(),
{
    if beacons.len() == 0 {
        Ok(Seq::empty())
    } else {
        match spec_parse_id(suffix_after_slash(beacons[0])) {
            None => Err(DynamoRepositoryError::DeserializationError),
            Some(v) => match spec_find_row(rows, note_key(v)) {
                None => Err(DynamoRepositoryError::NotFoundError),
                Some(i) => match note_of_item(rows[i]) {
                    None => Err(DynamoRepositoryError::DeserializationError),
                    Some(m) => match spec_collect_notes(rows, beacons.drop_first()) {
                        Err(e) => Err(e),
                        Ok(rest) => Ok(seq![m] + rest),
                    },
                },
            },
        }
    }
}

/// One explore answer of the vector index: the beacons of the nearest
/// stored objects, in the index's order.
pub struct ExploreQueryResult {
    pub beacons: Vec<String>,
}

impl ExploreQueryResult {
    /// The beacons' texts.
    pub open spec fn spec_beacons(&self) -> Seq<Seq<char>> {
        self.beacons@.map(|i: int, s: String| s@)
    }

    /// Resolves each beacon back into its stored note, in the index's
    /// order; the first beacon that is malformed, absent, or stored in
    /// the wrong shape fails the whole resolution.
    pub fn get_notes(&self, notes_service: &NotesService) -> (r: Result<
        Vec<NoteEntity>,
        DynamoRepositoryError,
    >)
        requires
            notes_service.inv(),
        ensures
            ({
                match (r, spec_collect_notes(notes_service@, self.spec_beacons())) {
                    (Ok(v), Ok(ms)) => crate::entity::models_of(v@) == ms,
                    (Err(e), Err(e2)) => e == e2,
                    _ => false,
                }
            }),
    {
        let ghost rows = notes_service@;
        let ghost views = self.spec_beacons();
        let mut out: Vec<NoteEntity> = Vec::new();
        let mut j: usize = 0;
        proof {
            assert(views.skip(0) =~= views);
            assert(crate::entity::models_of(out@) =~= Seq::<NoteModel>::empty());
        }
        while j < self.beacons.len()
            invariant
                notes_service.inv(),
                rows == notes_service@,
                views == self.spec_beacons(),
                j <= views.len(),
                views.len() == self.beacons@.len(),
                spec_collect_notes(rows, views) == (match spec_collect_notes(
                    rows,
                    views.skip(j as int),
                ) {
                    Err(e) => Err::<Seq<NoteModel>, DynamoRepositoryError>(e),
                    Ok(rest) => Ok::<Seq<NoteModel>, DynamoRepositoryError>(
                        crate::entity::models_of(out@) + rest,
                    ),
                }),
            decreases views.len() - j,
        {
            proof {
                assert(views.skip(j as int).drop_first() =~= views.skip(j as int + 1));
                assert(views.skip(j as int)[0] == views[j as int]);
                assert(views[j as int] == self.beacons@[j as int]@);
            }
            let id = match beacon_note_id(self.beacons[j].as_str()) {
                Some(id) => id,
                None => {
                    return Err(DynamoRepositoryError::DeserializationError);
                },
            };
            let note = match notes_service.find_by_id(id) {
                Ok(Some(note)) => note,
                Ok(None) => {
                    return Err(DynamoRepositoryError::NotFoundError);
                },
                Err(e) => {
                    return Err(e);
                },
            };
            let ghost before = out@;
            out.push(note);
            proof {
                assert(crate::entity::models_of(out@) =~= crate::entity::models_of(before).push(
                    out@[before.len() as int]@,
                ));
                let tail_rest = spec_collect_notes(rows, views.skip(j as int + 1));
                match tail_rest {
                    Err(_) => {},
                    Ok(rest) => {
                        assert(crate::entity::models_of(before) + (seq![out@[
                            before.len() as int]@] + rest) =~= crate::entity::models_of(out@)
                            + rest);
                    },
                }
            }
            j = j + 1;
        }
        proof {
            assert(views.skip(j as int).len() == 0);
            assert(crate::entity::models_of(out@) + Seq::<NoteModel>::empty() =~= crate::entity::models_of(out@));
        }
        Ok(out)
    }
}

} // verus!
