//! The two manifests that a client keeps: the current one and the one
//! before it.

use vstd::prelude::*;

verus! {

/// The manifests that a client keeps, as texts: the one that is applied
/// and, for one level of rollback, the one that it replaced.
#[derive(Debug)]
pub struct Generations {
    pub current: Option<String>,
    pub old: Option<String>,
}

/// What the kept manifests hold, as plain values.
pub struct GenerationsData {
    pub current: Option<Seq<char>>,
    pub old: Option<Seq<char>>,
}

/// The view of a text that may be absent.
pub open spec fn text_view(text: Option<String>) -> Option<Seq<char>> {
    match text {
        Some(t) => Some(t@),
        None => None,
    }
}

impl View for Generations {
    type V = GenerationsData;

    open spec fn view(&self) -> GenerationsData {
        GenerationsData { current: text_view(self.current), old: text_view(self.old) }
    }
}

/// Whether entering `text` changes the kept manifests: it does unless
/// `text` is the current manifest.
pub open spec fn changes(kept: GenerationsData, text: Seq<char>) -> bool {
    kept.current != Some(text)
}

/// The kept manifests after `text` was entered. With no current manifest,
/// `text` becomes current. A `text` equal to the current manifest changes
/// nothing. Any other `text` becomes current, the manifest that was current
/// becomes the old one, and the one that was old is dropped.
pub open spec fn entered(kept: GenerationsData, text: Seq<char>) -> GenerationsData {
    match kept.current {
        None => GenerationsData { current: Some(text), old: kept.old },
        Some(current) => if current == text {
            kept
        } else {
            GenerationsData { current: Some(text), old: Some(current) }
        },
    }
}

/// The kept manifests after a rollback: the old one is current, and there
/// is no old one any more.
pub open spec fn rolled_back(kept: GenerationsData) -> GenerationsData {
    GenerationsData { current: kept.old, old: None }
}

/// Entering the same text twice changes the kept manifests at most the
/// first time: the second time reports no change and leaves them as they
/// are.
pub proof fn lemma_enter_twice(kept: GenerationsData, text: Seq<char>)
    ensures
        !changes(entered(kept, text), text),
        entered(entered(kept, text), text) == entered(kept, text),
{
}

/// After a text was entered it is the current manifest, and whatever was
/// current before is still kept, as current or as old.
pub proof fn lemma_enter_keeps_previous(kept: GenerationsData, text: Seq<char>)
    ensures
        entered(kept, text).current == Some(text),
        kept.current is Some ==> (entered(kept, text).current == kept.current || entered(
            kept,
            text,
        ).old == kept.current),
{
}

/// After a rollback no further rollback is possible until a new manifest
/// was entered.
pub proof fn lemma_rollback_once(kept: GenerationsData)
    ensures
        rolled_back(kept).old is None,
{
}

impl Generations {
    /// No manifest kept.
    pub fn new() -> (out: Generations)
        ensures
            out@ == (GenerationsData { current: None, old: None }),
    {
        Generations { current: None, old: None }
    }
}

/// Enters `new_manifest` as the current manifest and says whether that
/// changed anything.
pub fn update_manifest(new_manifest: &str, generations: &mut Generations) -> (changed: bool)
    ensures
        changed == changes(old(generations)@, new_manifest@),
        final(generations)@ == entered(old(generations)@, new_manifest@),
{
    let text = new_manifest.to_owned();
    let same = match &generations.current {
        Some(current) => *current == text,
        None => false,
    };
    if same {
        return false;
    }
    let mut previous: Option<String> = Some(text);
    core::mem::swap(&mut generations.current, &mut previous);
    if previous.is_some() {
        generations.old = previous;
    }
    true
}

} // verus!
