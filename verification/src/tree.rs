//! The staging tree: which store object is linked at which path.

use vstd::prelude::*;
use crate::chunks::{Chunk, ChunkData, chunk_filename, chunk_views, store_name};

verus! {

/// One hard link of the staging tree: the store object `object` is linked
/// at `path`, a path below the staging directory.
#[derive(Debug, PartialEq)]
pub struct TreeLink {
    pub object: String,
    pub path: String,
}

/// What a link holds, as plain values.
pub struct TreeLinkData {
    pub object: Seq<char>,
    pub path: Seq<char>,
}

impl View for TreeLink {
    type V = TreeLinkData;

    open spec fn view(&self) -> TreeLinkData {
        TreeLinkData { object: self.object@, path: self.path@ }
    }
}

/// The views of a sequence of links.
pub open spec fn link_views(links: Seq<TreeLink>) -> Seq<TreeLinkData> {
    Seq::new(links.len(), |i: int| links[i]@)
}

/// The links of the tree that `chunks` describe: one for each chunk, in
/// order, from the chunk's store object to the chunk's path.
pub open spec fn tree_links(chunks: Seq<ChunkData>) -> Seq<TreeLinkData> {
    Seq::new(
        chunks.len(),
        |i: int| TreeLinkData { object: store_name(chunks[i]), path: chunks[i].path },
    )
}

/// The links that make up the staging tree of `chunks`. The tree is built
/// from nothing each time: what the staging directory held before is no
/// part of it.
pub fn build_tree(chunks: &[Chunk]) -> (out: Vec<TreeLink>)
    ensures
        link_views(out@) == tree_links(chunk_views(chunks@)),
{
    let mut out: Vec<TreeLink> = Vec::new();
    let mut i: usize = 0;
    while i < chunks.len()
        invariant
            i <= chunks.len(),
            out.len() == i,
            forall|k: int|
                0 <= k < i ==> (#[trigger] out[k])@ == (TreeLinkData {
                    object: store_name(chunks[k]@),
                    path: chunks[k]@.path,
                }),
        decreases chunks.len() - i,
    {
        let chunk = &chunks[i];
        out.push(TreeLink { object: chunk_filename(chunk), path: chunk.path.clone() });
        i += 1;
    }
    assert(link_views(out@) =~= tree_links(chunk_views(chunks@)));
    out
}

} // verus!
