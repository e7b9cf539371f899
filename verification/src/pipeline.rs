//! The whole compiler as one pure function: walk the tree into a catalogue,
//! serialize the catalogue into the generated artifact. The surrounding
//! build script only reads the tree in and writes the artifact out.

use vstd::prelude::*;

use crate::catalogue::build_catalogue;
use crate::catalogue::node_wf;
use crate::catalogue::walk_nodes_of;
use crate::catalogue::BuildError;
use crate::catalogue::BuildErrorView;
use crate::catalogue::TreeNode;
use crate::emit::emit;
use crate::emit::emit_of;

verus! {

/// What compiling a tree gives: the generated artifact, or the first fatal
/// fault.
pub open spec fn compile_of(nodes: Seq<TreeNode>) -> Result<Seq<u8>, BuildErrorView> {
    match walk_nodes_of(nodes, Seq::empty()) {
        Ok(mv) => Ok(emit_of(mv)),
        Err(e) => Err(e),
    }
}

/// Law: compilation is a pure function of the tree. Two runs over equal
/// trees give byte-identical artifacts, so rerunning the compiler over an
/// unchanged tree changes nothing.
pub proof fn lemma_compile_idempotent(a: Seq<TreeNode>, b: Seq<TreeNode>)
    requires
        a == b,
    ensures
        compile_of(a) == compile_of(b),
{
}

/// Compiles the children of the asset root into the generated artifact.
/// All-or-nothing: the first fault aborts the build.
pub fn compile(root: &Vec<TreeNode>) -> (r: Result<Vec<u8>, BuildError>)
    requires
        forall|i: int| 0 <= i < root@.len() ==> node_wf(#[trigger] root@[i]),
    ensures
        match r {
            Ok(artifact) => compile_of(root@) == Ok::<Seq<u8>, BuildErrorView>(artifact@),
            Err(e) => compile_of(root@) == Err::<Seq<u8>, BuildErrorView>(e@),
        },
{
    match build_catalogue(root) {
        Ok(m) => Ok(emit(&m)),
        Err(e) => Err(e),
    }
}

} // verus!
