//! Catalogue builder: one depth-first, pre-order traversal of a directory
//! tree value, classifying every leaf and aggregating all discovered assets
//! and sprite regions into one manifest, the source of truth for emission.
//!
//! The walk is all-or-nothing: the first sprite-manifest fault aborts the
//! whole build with an error naming the offending file. Unrecognized leaves
//! are skipped silently.

use vstd::prelude::*;

use crate::chain::PathChain;
use crate::chain::segment_ok;
use crate::classify::classify;
use crate::classify::classify_of;
use crate::classify::mime_bytes;
use crate::classify::mime_of;
use crate::classify::AssetKind;
use crate::classify::FileClass;
use crate::ident::flat_identifier;
use crate::ident::flat_identifier_of;
use crate::ident::relative_path;
use crate::ident::relative_path_of;
use crate::sprite::parse_manifest;
use crate::sprite::parse_manifest_of;
use crate::sprite::ManifestFault;
use crate::sprite::ManifestFaultView;
use crate::sprite::SpriteRegion;
use crate::sprite::SpriteRegionView;
use crate::text::bytes_eq;

verus! {

/// One entry of the scanned directory tree, as plain values. Only the text
/// of sprite manifest files is consulted; other leaves are recorded by name
/// alone, so their `text` may stay empty.
pub enum TreeNode {
    /// A directory and its children, in discovery order.
    Dir { name: Vec<u8>, children: Vec<TreeNode> },
    /// A leaf file and its contents.
    File { name: Vec<u8>, text: Vec<u8> },
}

/// Every name in the tree is an acceptable path segment.
pub open spec fn node_wf(node: TreeNode) -> bool
    decreases node,
{
    match node {
        TreeNode::Dir { name, children } => {
            &&& segment_ok(name@)
            &&& forall|i: int| 0 <= i < children@.len() ==> node_wf(#[trigger] children@[i])
        },
        TreeNode::File { name, text: _ } => segment_ok(name@),
    }
}

/// One discovered embeddable asset.
#[derive(Debug, PartialEq, Eq)]
pub struct AssetRecord {
    /// Flat symbolic name, derived from the path chain.
    pub identifier: Vec<u8>,
    /// Rooted relative path, derived from the same chain.
    pub relative_path: Vec<u8>,
    /// MIME string of the asset's kind.
    pub mime: Vec<u8>,
    /// Image or font.
    pub kind: AssetKind,
}

/// Mathematical model of an asset record.
pub ghost struct AssetRecordView {
    pub identifier: Seq<u8>,
    pub relative_path: Seq<u8>,
    pub mime: Seq<u8>,
    pub kind: AssetKind,
}

impl View for AssetRecord {
    type V = AssetRecordView;

    open spec fn view(&self) -> AssetRecordView {
        AssetRecordView {
            identifier: self.identifier@,
            relative_path: self.relative_path@,
            mime: self.mime@,
            kind: self.kind,
        }
    }
}

impl DeepView for AssetRecord {
    type V = AssetRecordView;

    open spec fn deep_view(&self) -> AssetRecordView {
        self@
    }
}

/// The aggregate of one compiler run: all discovered assets and sprite
/// regions, in discovery order.
#[derive(Debug)]
pub struct Manifest {
    pub assets: Vec<AssetRecord>,
    pub regions: Vec<SpriteRegion>,
}

/// Mathematical model of a manifest.
pub ghost struct ManifestView {
    pub assets: Seq<AssetRecordView>,
    pub regions: Seq<SpriteRegionView>,
}

impl View for Manifest {
    type V = ManifestView;

    open spec fn view(&self) -> ManifestView {
        ManifestView { assets: self.assets.deep_view(), regions: self.regions.deep_view() }
    }
}

/// A fatal build fault: the sprite manifest it happened in, by rooted
/// relative path, and the offending line.
#[derive(Debug)]
pub struct BuildError {
    pub path: Vec<u8>,
    pub fault: ManifestFault,
}

/// Mathematical model of a build fault.
pub ghost struct BuildErrorView {
    pub path: Seq<u8>,
    pub fault: ManifestFaultView,
}

impl View for BuildError {
    type V = BuildErrorView;

    open spec fn view(&self) -> BuildErrorView {
        BuildErrorView { path: self.path@, fault: self.fault@ }
    }
}

/// The manifest with nothing in it.
pub open spec fn empty_view() -> ManifestView {
    ManifestView { assets: Seq::empty(), regions: Seq::empty() }
}

/// Two manifests, one after the other.
pub open spec fn concat_view(a: ManifestView, b: ManifestView) -> ManifestView {
    ManifestView { assets: a.assets + b.assets, regions: a.regions + b.regions }
}

/// The asset record a leaf discovered under `chain` with basename `name`
/// gets: identifier and relative path are both functions of the chain.
pub open spec fn record_of(chain: Seq<Seq<u8>>, name: Seq<u8>, kind: AssetKind) -> AssetRecordView {
    AssetRecordView {
        identifier: flat_identifier_of(chain.push(name)),
        relative_path: relative_path_of(chain.push(name)),
        mime: mime_of(kind),
        kind,
    }
}

/// What walking one node under `chain` contributes to the catalogue, or the
/// first fatal fault.
pub open spec fn walk_node_of(node: TreeNode, chain: Seq<Seq<u8>>) -> Result<
    ManifestView,
    BuildErrorView,
>
    decreases node,
{
    match node {
        TreeNode::Dir { name, children } => walk_nodes_of(children@, chain.push(name@)),
        TreeNode::File { name, text } => match classify_of(name@) {
            None => Ok(empty_view()),
            Some(FileClass::Asset(kind)) => Ok(
                ManifestView {
                    assets: seq![record_of(chain, name@, kind)],
                    regions: Seq::empty(),
                },
            ),
            Some(FileClass::SpriteManifest) => {
                let full = chain.push(name@);
                match parse_manifest_of(flat_identifier_of(full), text@) {
                    Ok(regions) => Ok(ManifestView { assets: Seq::empty(), regions }),
                    Err(mf) => Err(BuildErrorView { path: relative_path_of(full), fault: mf }),
                }
            },
        },
    }
}

/// What walking a sequence of sibling nodes contributes, in order; the first
/// fault wins.
pub open spec fn walk_nodes_of(nodes: Seq<TreeNode>, chain: Seq<Seq<u8>>) -> Result<
    ManifestView,
    BuildErrorView,
>
    decreases nodes,
{
    if nodes.len() == 0 {
        Ok(empty_view())
    } else {
        match walk_node_of(nodes.first(), chain) {
            Err(e) => Err(e),
            Ok(head) => match walk_nodes_of(nodes.drop_first(), chain) {
                Err(e) => Err(e),
                Ok(rest) => Ok(concat_view(head, rest)),
            },
        }
    }
}

/// The combined contribution of the first `k` siblings, assuming each walks
/// cleanly.
pub open spec fn walked_prefix(nodes: Seq<TreeNode>, chain: Seq<Seq<u8>>, k: int) -> ManifestView
    decreases k,
{
    if k <= 0 {
        empty_view()
    } else {
        concat_view(
            walked_prefix(nodes, chain, k - 1),
            walk_node_of(nodes[k - 1], chain)->Ok_0,
        )
    }
}

/// Walking a sibling sequence whose first `k` nodes walk cleanly is: walk
/// the rest and put the first `k` contributions in front.
pub proof fn lemma_walk_nodes_split(nodes: Seq<TreeNode>, chain: Seq<Seq<u8>>, k: int)
    requires
        0 <= k <= nodes.len(),
        forall|j: int| 0 <= j < k ==> walk_node_of(#[trigger] nodes[j], chain) is Ok,
    ensures
        walk_nodes_of(nodes, chain) == match walk_nodes_of(
            nodes.subrange(k, nodes.len() as int),
            chain,
        ) {
            Ok(rest) => Ok::<ManifestView, BuildErrorView>(
                concat_view(walked_prefix(nodes, chain, k), rest),
            ),
            Err(e) => Err::<ManifestView, BuildErrorView>(e),
        },
    decreases k,
{
    let n = nodes.len() as int;
    if k == 0 {
        assert(nodes.subrange(0, n) =~= nodes);
        match walk_nodes_of(nodes, chain) {
            Ok(rest) => {
                assert(concat_view(empty_view(), rest).assets =~= rest.assets);
                assert(concat_view(empty_view(), rest).regions =~= rest.regions);
            },
            Err(_) => {},
        }
    } else {
        lemma_walk_nodes_split(nodes, chain, k - 1);
        let tail = nodes.subrange(k - 1, n);
        assert(tail.first() == nodes[k - 1]);
        assert(tail.drop_first() =~= nodes.subrange(k, n));
        let head = walk_node_of(nodes[k - 1], chain)->Ok_0;
        match walk_nodes_of(nodes.subrange(k, n), chain) {
            Ok(rest) => {
                assert(walk_nodes_of(nodes, chain) == Ok::<ManifestView, BuildErrorView>(
                    concat_view(walked_prefix(nodes, chain, k - 1), concat_view(head, rest)),
                ));
                let a = concat_view(walked_prefix(nodes, chain, k - 1), concat_view(head, rest));
                let b = concat_view(walked_prefix(nodes, chain, k), rest);
                assert(a.assets =~= b.assets);
                assert(a.regions =~= b.regions);
            },
            Err(_) => {},
        }
    }
}

/// Walks one node, appending its contribution to `m`. On a fault, the build
/// is abandoned and `m` is meaningless.
fn walk_node(node: &TreeNode, chain: &PathChain, m: &mut Manifest) -> (r: Result<(), BuildError>)
    requires
        node_wf(*node),
    ensures
        match r {
            Ok(_) => {
                &&& walk_node_of(*node, chain@) is Ok
                &&& final(m)@.assets == old(m)@.assets + walk_node_of(*node, chain@)->Ok_0.assets
                &&& final(m)@.regions == old(m)@.regions + walk_node_of(*node, chain@)->Ok_0.regions
            },
            Err(e) => walk_node_of(*node, chain@) == Err::<ManifestView, BuildErrorView>(e@),
        },
    decreases *node,
{
    match node {
        TreeNode::Dir { name, children } => {
            let child_chain = chain.extend(name);
            proof {
                assert(decreases_to!(*node => children@));
            }
            walk_nodes(children, &child_chain, m)
        },
        TreeNode::File { name, text } => {
            match classify(name) {
                None => {
                    proof {
                        assert(final(m)@.assets =~= old(m)@.assets + Seq::<
                            AssetRecordView,
                        >::empty());
                        assert(final(m)@.regions =~= old(m)@.regions + Seq::<
                            SpriteRegionView,
                        >::empty());
                    }
                    Ok(())
                },
                Some(FileClass::Asset(kind)) => {
                    let full = chain.extend(name);
                    let record = AssetRecord {
                        identifier: flat_identifier(&full),
                        relative_path: relative_path(&full),
                        mime: mime_bytes(kind),
                        kind,
                    };
                    proof {
                        assert(record@ == record_of(chain@, name@, kind));
                    }
                    m.assets.push(record);
                    proof {
                        assert(m@.assets =~= old(m)@.assets + seq![
                            record_of(chain@, name@, kind),
                        ]);
                        assert(m@.regions =~= old(m)@.regions + Seq::<SpriteRegionView>::empty());
                    }
                    Ok(())
                },
                Some(FileClass::SpriteManifest) => {
                    let full = chain.extend(name);
                    let file_ident = flat_identifier(&full);
                    match parse_manifest(&file_ident, text) {
                        Ok(mut regions) => {
                            let ghost found = regions.deep_view();
                            m.regions.append(&mut regions);
                            proof {
                                assert(m@.assets =~= old(m)@.assets + Seq::<
                                    AssetRecordView,
                                >::empty());
                                assert(m@.regions =~= old(m)@.regions + found);
                            }
                            Ok(())
                        },
                        Err(fault) => {
                            let e = BuildError { path: relative_path(&full), fault };
                            Err(e)
                        },
                    }
                },
            }
        },
    }
}

/// Walks sibling nodes left to right, appending each contribution to `m`.
fn walk_nodes(nodes: &Vec<TreeNode>, chain: &PathChain, m: &mut Manifest) -> (r: Result<
    (),
    BuildError,
>)
    requires
        forall|i: int| 0 <= i < nodes@.len() ==> node_wf(#[trigger] nodes@[i]),
    ensures
        match r {
            Ok(_) => {
                &&& walk_nodes_of(nodes@, chain@) is Ok
                &&& final(m)@.assets == old(m)@.assets + walk_nodes_of(nodes@, chain@)->Ok_0.assets
                &&& final(m)@.regions == old(m)@.regions + walk_nodes_of(
                    nodes@,
                    chain@,
                )->Ok_0.regions
            },
            Err(e) => walk_nodes_of(nodes@, chain@) == Err::<ManifestView, BuildErrorView>(e@),
        },
    decreases nodes@,
{
    let n = nodes.len();
    let mut i: usize = 0;
    while i < n
        invariant
            i <= n,
            n == nodes@.len(),
            forall|j: int| 0 <= j < nodes@.len() ==> node_wf(#[trigger] nodes@[j]),
            forall|j: int| 0 <= j < i as int ==> walk_node_of(#[trigger] nodes@[j], chain@) is Ok,
            m@.assets == old(m)@.assets + walked_prefix(nodes@, chain@, i as int).assets,
            m@.regions == old(m)@.regions + walked_prefix(nodes@, chain@, i as int).regions,
        decreases n - i,
    {
        proof {
            assert(decreases_to!(nodes@ => nodes@[i as int]));
        }
        let ghost pre = m@;
        match walk_node(&nodes[i], chain, m) {
            Ok(_) => {
                proof {
                    let w = walked_prefix(nodes@, chain@, i + 1 as int);
                    assert(m@.assets =~= old(m)@.assets + w.assets);
                    assert(m@.regions =~= old(m)@.regions + w.regions);
                }
            },
            Err(e) => {
                proof {
                    lemma_walk_nodes_split(nodes@, chain@, i as int);
                    let tail = nodes@.subrange(i as int, nodes@.len() as int);
                    assert(tail.first() == nodes@[i as int]);
                    assert(walk_nodes_of(tail, chain@) == Err::<ManifestView, BuildErrorView>(e@));
                }
                return Err(e);
            },
        }
        i += 1;
    }
    proof {
        lemma_walk_nodes_split(nodes@, chain@, n as int);
        let tail = nodes@.subrange(n as int, nodes@.len() as int);
        assert(tail.len() == 0);
        assert(walk_nodes_of(tail, chain@) == Ok::<ManifestView, BuildErrorView>(empty_view()));
        let w = walk_nodes_of(nodes@, chain@)->Ok_0;
        assert(w.assets =~= walked_prefix(nodes@, chain@, n as int).assets);
        assert(w.regions =~= walked_prefix(nodes@, chain@, n as int).regions);
    }
    Ok(())
}

/// Builds the whole catalogue from the children of the asset root: one
/// depth-first pre-order walk, aborted by the first fatal fault.
pub fn build_catalogue(root: &Vec<TreeNode>) -> (r: Result<Manifest, BuildError>)
    requires
        forall|i: int| 0 <= i < root@.len() ==> node_wf(#[trigger] root@[i]),
    ensures
        match r {
            Ok(m) => {
                &&& walk_nodes_of(root@, Seq::empty()) == Ok::<ManifestView, BuildErrorView>(m@)
                &&& forall|k: int|
                    0 <= k < m@.assets.len() ==> {
                        let ident = (#[trigger] m@.assets[k]).identifier;
                        ident.len() > 0 && !ident.contains(47u8)
                    }
            },
            Err(e) => walk_nodes_of(root@, Seq::empty()) == Err::<ManifestView, BuildErrorView>(
                e@,
            ),
        },
{
    let mut m = Manifest { assets: Vec::new(), regions: Vec::new() };
    proof {
        assert(m@.assets =~= Seq::<AssetRecordView>::empty());
        assert(m@.regions =~= Seq::<SpriteRegionView>::empty());
    }
    let chain = PathChain::root();
    match walk_nodes(root, &chain, &mut m) {
        Ok(_) => {
            proof {
                let w = walk_nodes_of(root@, Seq::empty())->Ok_0;
                assert(m@.assets =~= w.assets);
                assert(m@.regions =~= w.regions);
                lemma_record_identifiers_in(root@, Seq::empty());
            }
            Ok(m)
        },
        Err(e) => Err(e),
    }
}

/// How many leaves under one node the classifier recognizes as embeddable
/// assets. Directories, sprite manifests and skipped files do not count.
pub open spec fn recognized_leaves(node: TreeNode) -> nat
    decreases node,
{
    match node {
        TreeNode::Dir { name: _, children } => recognized_leaves_in(children@),
        TreeNode::File { name, text: _ } => match classify_of(name@) {
            Some(FileClass::Asset(_)) => 1nat,
            _ => 0nat,
        },
    }
}

/// How many recognized leaves a sequence of siblings holds, in total.
pub open spec fn recognized_leaves_in(nodes: Seq<TreeNode>) -> nat
    decreases nodes,
{
    if nodes.len() == 0 {
        0nat
    } else {
        recognized_leaves(nodes.first()) + recognized_leaves_in(nodes.drop_first())
    }
}

/// Law: a clean walk of one node generates exactly one asset record per
/// recognized leaf under it; directories and sprite manifests add none.
pub proof fn lemma_asset_count(node: TreeNode, chain: Seq<Seq<u8>>)
    requires
        walk_node_of(node, chain) is Ok,
    ensures
        walk_node_of(node, chain)->Ok_0.assets.len() == recognized_leaves(node),
    decreases node,
{
    match node {
        TreeNode::Dir { name, children } => {
            lemma_asset_count_in(children@, chain.push(name@));
        },
        TreeNode::File { name: _, text: _ } => {},
    }
}

/// Law: a clean walk of a sibling sequence generates exactly one asset
/// record per recognized leaf under it.
pub proof fn lemma_asset_count_in(nodes: Seq<TreeNode>, chain: Seq<Seq<u8>>)
    requires
        walk_nodes_of(nodes, chain) is Ok,
    ensures
        walk_nodes_of(nodes, chain)->Ok_0.assets.len() == recognized_leaves_in(nodes),
    decreases nodes,
{
    if nodes.len() > 0 {
        lemma_asset_count(nodes.first(), chain);
        lemma_asset_count_in(nodes.drop_first(), chain);
    }
}

/// Every record of a clean walk has a non-empty identifier free of path
/// separators: leaves sit at depth one or more, so their chains are never
/// empty.
pub proof fn lemma_record_identifiers(node: TreeNode, chain: Seq<Seq<u8>>)
    requires
        node_wf(node),
        forall|i: int| 0 <= i < chain.len() ==> segment_ok(#[trigger] chain[i]),
        walk_node_of(node, chain) is Ok,
    ensures
        forall|k: int|
            0 <= k < walk_node_of(node, chain)->Ok_0.assets.len() ==> {
                let ident = (#[trigger] walk_node_of(node, chain)->Ok_0.assets[k]).identifier;
                ident.len() > 0 && !ident.contains(47u8)
            },
    decreases node,
{
    match node {
        TreeNode::Dir { name, children } => {
            let sub = chain.push(name@);
            assert(forall|i: int| 0 <= i < sub.len() ==> segment_ok(#[trigger] sub[i]));
            lemma_record_identifiers_in(children@, sub);
        },
        TreeNode::File { name, text: _ } => {
            match classify_of(name@) {
                Some(FileClass::Asset(_)) => {
                    let full = chain.push(name@);
                    assert(forall|i: int| 0 <= i < full.len() ==> segment_ok(#[trigger] full[i]));
                    crate::ident::lemma_identifier_shape(full);
                },
                _ => {},
            }
        },
    }
}

/// As `lemma_record_identifiers`, for a sibling sequence.
pub proof fn lemma_record_identifiers_in(nodes: Seq<TreeNode>, chain: Seq<Seq<u8>>)
    requires
        forall|i: int| 0 <= i < nodes.len() ==> node_wf(#[trigger] nodes[i]),
        forall|i: int| 0 <= i < chain.len() ==> segment_ok(#[trigger] chain[i]),
        walk_nodes_of(nodes, chain) is Ok,
    ensures
        forall|k: int|
            0 <= k < walk_nodes_of(nodes, chain)->Ok_0.assets.len() ==> {
                let ident = (#[trigger] walk_nodes_of(nodes, chain)->Ok_0.assets[k]).identifier;
                ident.len() > 0 && !ident.contains(47u8)
            },
    decreases nodes,
{
    if nodes.len() > 0 {
        assert(node_wf(nodes.first()));
        lemma_record_identifiers(nodes.first(), chain);
        assert(forall|i: int|
            0 <= i < nodes.drop_first().len() ==> node_wf(#[trigger] nodes.drop_first()[i]));
        lemma_record_identifiers_in(nodes.drop_first(), chain);
        let head = walk_node_of(nodes.first(), chain)->Ok_0;
        let rest = walk_nodes_of(nodes.drop_first(), chain)->Ok_0;
        let whole = walk_nodes_of(nodes, chain)->Ok_0;
        assert(whole.assets == head.assets + rest.assets);
        assert forall|k: int| 0 <= k < whole.assets.len() implies {
            let ident = (#[trigger] whole.assets[k]).identifier;
            ident.len() > 0 && !ident.contains(47u8)
        } by {
            if k < head.assets.len() {
                assert(whole.assets[k] == head.assets[k]);
            } else {
                assert(whole.assets[k] == rest.assets[k - head.assets.len()]);
            }
        }
    }
}

/// Two distinct positions of the asset sequence carry the same identifier.
pub open spec fn has_duplicate_identifier(assets: Seq<AssetRecordView>) -> bool {
    exists|i: int, j: int|
        0 <= i < j < assets.len() && (#[trigger] assets[i]).identifier == (
        #[trigger] assets[j]).identifier
}

/// Finds a pair of distinct assets whose paths normalized to one identifier.
/// Such a collision would make one schema field silently shadow the other,
/// so a build driver should treat it as fatal rather than emit the artifact.
pub fn find_duplicate_identifier(m: &Manifest) -> (r: Option<(usize, usize)>)
    ensures
        match r {
            Some((i, j)) => {
                &&& i < j < m.assets@.len()
                &&& m.assets@[i as int]@.identifier == m.assets@[j as int]@.identifier
            },
            None => !has_duplicate_identifier(m@.assets),
        },
{
    let n = m.assets.len();
    let mut i: usize = 0;
    while i < n
        invariant
            i <= n,
            n == m.assets@.len(),
            forall|a: int, b: int|
                0 <= a < b < m.assets@.len() && a < i as int ==> (
                #[trigger] m.assets@[a])@.identifier != (#[trigger] m.assets@[b])@.identifier,
        decreases n - i,
    {
        let mut j = i + 1;
        while j < n
            invariant
                i < j <= n,
                n == m.assets@.len(),
                forall|b: int|
                    i < b < j as int ==> (#[trigger] m.assets@[b])@.identifier
                        != m.assets@[i as int]@.identifier,
            decreases n - j,
        {
            if bytes_eq(&m.assets[i].identifier, &m.assets[j].identifier) {
                return Some((i, j));
            }
            j += 1;
        }
        i += 1;
    }
    proof {
        assert forall|a: int, b: int|
            0 <= a < b < m@.assets.len() implies (#[trigger] m@.assets[a]).identifier != (
        #[trigger] m@.assets[b]).identifier by {
            assert(m@.assets[a] == m.assets@[a]@);
            assert(m@.assets[b] == m.assets@[b]@);
        }
    }
    None
}

} // verus!
