//! Dual-artifact coordinator: a logical page of the rendering variant is a
//! pair of artifacts — the raw markup under the edit root and the rendered
//! HTML under the pages root, both at the same encoded name. Create/update
//! writes the pair in a fixed order with a documented partial-failure
//! outcome; delete attempts both removals and reports an aggregate result.

use vstd::prelude::*;
use crate::encode::encode_bytes;
use crate::encode::encode_segment;
use crate::render::html_of;
use crate::render::render;
use crate::store::Directory;
use crate::store::IoError;

verus! {

/// How a create/update of the artifact pair ended.
#[derive(Clone, Copy, Debug, PartialEq, Eq, Structural)]
pub enum CreateOutcome {
    /// Both artifacts were written.
    Created,
    /// The source write failed; no render was attempted and the pages-root
    /// artifact was not touched.
    SourceWriteFailed(IoError),
    /// The source was written but the rendered write failed: the pair is
    /// left inconsistent (source updated, rendering stale or absent).
    PartialArtifactFailure(IoError),
}

/// Everything a create/update has to put on disk: the two artifact names
/// (equal, one per root) and the two bodies.
pub struct CreatePlan {
    /// Artifact name under the edit root: the encoded identifier.
    pub edit_name: Vec<u8>,
    /// The raw markup, stored unchanged.
    pub source: String,
    /// Artifact name under the pages root: the encoded identifier.
    pub pages_name: Vec<u8>,
    /// The HTML rendered from the markup.
    pub rendered: String,
}

/// What a well-made plan for `id` and `body` holds.
pub open spec fn plan_for(p: CreatePlan, id: Seq<u8>, body: Seq<char>) -> bool {
    &&& p.edit_name@ == encode_bytes(id)
    &&& p.pages_name@ == encode_bytes(id)
    &&& p.source@ == body
    &&& p.rendered@ == html_of(body)
}

/// Work out everything a create/update of page `id` with markup `body` puts
/// on disk: the encoded artifact name for both roots, the raw markup, and
/// its rendering.
pub fn plan_create(id: &Vec<u8>, body: &str) -> (p: CreatePlan)
    ensures
        plan_for(p, id@, body@),
{
    let edit_name = encode_segment(id);
    let pages_name = encode_segment(id);
    let rendered = render(body);
    let source = body.to_string();
    CreatePlan { edit_name, source, pages_name, rendered }
}

/// Classify a create/update from the results of its writes. The source
/// write comes first; the rendered write is attempted exactly when the
/// source write succeeded, so `rendered` is `Some` exactly then. A failure
/// after the source write is surfaced as `PartialArtifactFailure`, distinct
/// from a clean failure, so drift between the two artifacts is detectable.
pub fn create_outcome(source: Result<(), IoError>, rendered: Option<Result<(), IoError>>) -> (o:
    CreateOutcome)
    requires
        rendered.is_some() <==> source.is_ok(),
    ensures
        match source {
            Err(e) => o == CreateOutcome::SourceWriteFailed(e),
            Ok(_) => match rendered {
                Some(Ok(_)) => o == CreateOutcome::Created,
                Some(Err(e)) => o == CreateOutcome::PartialArtifactFailure(e),
                None => false,
            },
        },
{
    match source {
        Err(e) => CreateOutcome::SourceWriteFailed(e),
        Ok(_) => match rendered {
            Some(Ok(_)) => CreateOutcome::Created,
            Some(Err(e)) => CreateOutcome::PartialArtifactFailure(e),
            None => {
                proof {
                    assert(false);
                }
                CreateOutcome::Created
            },
        },
    }
}

/// Aggregate the two removals of a delete. Both are always attempted, so a
/// failing source-side removal never strands the rendered artifact; the
/// operation succeeds only when both removals succeeded, and the edit-root
/// error is reported first.
pub fn delete_outcome(edit: Result<(), IoError>, pages: Result<(), IoError>) -> (r: Result<
    (),
    IoError,
>)
    ensures
        match (edit, pages) {
            (Ok(_), Ok(_)) => r == Ok::<(), IoError>(()),
            (Err(e), _) => r == Err::<(), IoError>(e),
            (Ok(_), Err(e)) => r == Err::<(), IoError>(e),
        },
{
    match (edit, pages) {
        (Ok(_), Ok(_)) => Ok(()),
        (Err(e), _) => Err(e),
        (Ok(_), Err(e)) => Err(e),
    }
}

/// Create or update the page `id`: store the raw markup under the encoded
/// name in the edit directory, then the rendered HTML under the same name
/// in the pages directory. Last write wins, full replace.
pub fn apply_create(edit: &mut Directory, pages: &mut Directory, id: &Vec<u8>, body: &str)
    requires
        old(edit).wf(),
        old(pages).wf(),
    ensures
        final(edit).wf(),
        final(pages).wf(),
        final(edit)@ == old(edit)@.insert(encode_bytes(id@), body@),
        final(pages)@ == old(pages)@.insert(encode_bytes(id@), html_of(body@)),
{
    let plan = plan_create(id, body);
    edit.write(&plan.edit_name, plan.source);
    pages.write(&plan.pages_name, plan.rendered);
}

/// Delete the page `id`: remove both artifacts, attempting the pages-root
/// removal even when the edit-root one fails, so neither side can be left
/// stranded. Succeeds exactly when both artifacts existed; a missing
/// artifact on either side surfaces `NotFound`.
pub fn apply_delete(edit: &mut Directory, pages: &mut Directory, id: &Vec<u8>) -> (r: Result<
    (),
    IoError,
>)
    requires
        old(edit).wf(),
        old(pages).wf(),
    ensures
        final(edit).wf(),
        final(pages).wf(),
        final(edit)@ == old(edit)@.remove(encode_bytes(id@)),
        final(pages)@ == old(pages)@.remove(encode_bytes(id@)),
        r == Ok::<(), IoError>(()) <==> (old(edit)@.contains_key(encode_bytes(id@))
            && old(pages)@.contains_key(encode_bytes(id@))),
        r.is_err() ==> r == Err::<(), IoError>(IoError::NotFound),
{
    let name = encode_segment(id);
    let r_edit = edit.delete(&name);
    let r_pages = pages.delete(&name);
    proof {
        let k = encode_bytes(id@);
        if !old(edit)@.contains_key(k) {
            assert(old(edit)@.remove(k) =~= old(edit)@);
        }
        if !old(pages)@.contains_key(k) {
            assert(old(pages)@.remove(k) =~= old(pages)@);
        }
    }
    delete_outcome(r_edit, r_pages)
}

} // verus!
