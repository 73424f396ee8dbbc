//! Going back to the manifest before the current one.

use vstd::prelude::*;
use crate::generations::{Generations, GenerationsData, rolled_back};
use crate::manifest::{FormatError, manifest_of, parse_manifest};
use crate::tree::{TreeLink, TreeLinkData, build_tree, link_views, tree_links};

verus! {

/// Why a rollback is refused.
#[derive(Debug, Clone, Copy, PartialEq, Eq, Structural)]
pub enum RollbackError {
    /// There is no old manifest to go back to.
    NoRollbackAvailable,
    /// The old manifest cannot be read.
    Format(FormatError),
}

/// What a rollback of `kept` gives: the links of the old manifest's tree.
pub open spec fn rollback_links(kept: GenerationsData) -> Result<Seq<TreeLinkData>, RollbackError> {
    match kept.old {
        None => Err(RollbackError::NoRollbackAvailable),
        Some(text) => match manifest_of(text) {
            Err(e) => Err(RollbackError::Format(e)),
            Ok(manifest) => Ok(tree_links(manifest.1)),
        },
    }
}

/// Makes the old manifest the current one and gives the links of its tree,
/// which is built from the objects that the chunk store already holds.
/// Afterwards there is no old manifest. Where the rollback is refused,
/// the kept manifests stay as they are.
pub fn rollback(generations: &mut Generations) -> (out: Result<Vec<TreeLink>, RollbackError>)
    ensures
        match out {
            Ok(links) => rollback_links(old(generations)@) == Ok::<
                Seq<TreeLinkData>,
                RollbackError,
            >(link_views(links@)) && final(generations)@ == rolled_back(old(generations)@),
            Err(e) => rollback_links(old(generations)@) == Err::<
                Seq<TreeLinkData>,
                RollbackError,
            >(e) && final(generations)@ == old(generations)@,
        },
{
    let links = match &generations.old {
        None => {
            return Err(RollbackError::NoRollbackAvailable);
        },
        Some(text) => match parse_manifest(text.as_str()) {
            Err(e) => {
                return Err(RollbackError::Format(e));
            },
            Ok((_, chunks)) => build_tree(chunks.as_slice()),
        },
    };
    let mut promoted: Option<String> = None;
    core::mem::swap(&mut generations.old, &mut promoted);
    generations.current = promoted;
    Ok(links)
}

} // verus!
