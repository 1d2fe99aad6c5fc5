//! Snapshot of a ledger block, and its mathematical view.

use vstd::prelude::*;

verus! {

/// What a `BlockInfo` is, as plain mathematical values.
pub struct BlockView {
    pub hash: Seq<char>,
    pub blue_score: u64,
    pub parents: Seq<Seq<char>>,
    pub timestamp: u64,
}

/// Contains essential information about a block in the DAG.
#[derive(Debug)]
pub struct BlockInfo {
    pub hash: String,
    pub blue_score: u64,
    pub parents: Vec<String>,
    pub timestamp: u64,
}

/// The identifiers that a list of strings spells out, in order.
pub open spec fn ids_of(names: Seq<String>) -> Seq<Seq<char>> {
    Seq::new(names.len(), |i: int| names[i]@)
}

impl View for BlockInfo {
    type V = BlockView;

    open spec fn view(&self) -> BlockView {
        BlockView {
            hash: self.hash@,
            blue_score: self.blue_score,
            parents: ids_of(self.parents@),
            timestamp: self.timestamp,
        }
    }
}

/// Copies a list of identifiers.
pub fn copy_ids(names: &Vec<String>) -> (out: Vec<String>)
    ensures
        ids_of(out@) == ids_of(names@),
{
    let mut out: Vec<String> = Vec::new();
    let mut i: usize = 0;
    while i < names.len()
        invariant
            i <= names.len(),
            out.len() == i,
            forall|k: int| 0 <= k < i ==> out@[k]@ == names@[k]@,
        decreases names.len() - i,
    {
        out.push(names[i].clone());
        i += 1;
    }
    assert(ids_of(out@) =~= ids_of(names@));
    out
}

impl Clone for BlockInfo {
    fn clone(&self) -> (copy: Self)
        ensures
            copy@ == self@,
    {
        BlockInfo {
            hash: self.hash.clone(),
            blue_score: self.blue_score,
            parents: copy_ids(&self.parents),
            timestamp: self.timestamp,
        }
    }
}

} // verus!
