//! The hash tree of an Internet Computer certificate and its root hash.
use vstd::prelude::*;
use crate::bytes::{append_bytes, ascii, ascii_bytes, bytes_equal};
use crate::crypto::{sha256, sha256_spec};
use crate::ic::{cbor_item, cbor_item_decoding, CborItem, CborView};

verus! {

/// A certificate's hash tree.
pub enum HashTree {
    Empty,
    Fork(Box<HashTree>, Box<HashTree>),
    Labeled(Vec<u8>, Box<HashTree>),
    Leaf(Vec<u8>),
    /// A subtree replaced by its 32-byte digest.
    Pruned(Vec<u8>),
}

/// Every pruned digest in the tree is 32 bytes long.
pub open spec fn tree_wf(t: HashTree) -> bool
    decreases t,
{
    match t {
        HashTree::Empty => true,
        HashTree::Fork(l, r) => tree_wf(*l) && tree_wf(*r),
        HashTree::Labeled(_, sub) => tree_wf(*sub),
        HashTree::Leaf(_) => true,
        HashTree::Pruned(d) => d@.len() == 32,
    }
}

/// The plain contents of a hash tree.
pub enum TreeView {
    Empty,
    Fork(Box<TreeView>, Box<TreeView>),
    Labeled(Seq<u8>, Box<TreeView>),
    Leaf(Seq<u8>),
    Pruned(Seq<u8>),
}

/// The plain contents of a hash tree.
pub open spec fn tree_view(t: HashTree) -> TreeView
    decreases t,
{
    match t {
        HashTree::Empty => TreeView::Empty,
        HashTree::Fork(l, r) => TreeView::Fork(Box::new(tree_view(*l)), Box::new(tree_view(*r))),
        HashTree::Labeled(label, sub) => TreeView::Labeled(label@, Box::new(tree_view(*sub))),
        HashTree::Leaf(data) => TreeView::Leaf(data@),
        HashTree::Pruned(d) => TreeView::Pruned(d@),
    }
}

/// The digest of a tree: SHA-256 over a domain text followed by the node's
/// contents and its subtrees' digests; a pruned subtree stands for its digest.
pub open spec fn tree_digest(t: TreeView) -> Seq<u8>
    decreases t,
{
    match t {
        TreeView::Empty => sha256_spec(ascii("ic-hashtree-empty"@)),
        TreeView::Fork(l, r) => sha256_spec(ascii("ic-hashtree-fork"@) + tree_digest(*l) + tree_digest(*r)),
        TreeView::Labeled(label, sub) => sha256_spec(ascii("ic-hashtree-labeled"@) + label + tree_digest(*sub)),
        TreeView::Leaf(data) => sha256_spec(ascii("ic-hashtree-leaf"@) + data),
        TreeView::Pruned(d) => d,
    }
}

/// The root hash of a hash tree.
pub fn hash_tree(node: &HashTree) -> (res: [u8; 32])
    requires
        tree_wf(*node),
    ensures
        res@ == tree_digest(tree_view(*node)),
    decreases node,
{
    match node {
        HashTree::Empty => {
            let msg = ascii_bytes("ic-hashtree-empty");
            sha256(msg.as_slice())
        },
        HashTree::Fork(l, r) => {
            let left = hash_tree(l);
            let right = hash_tree(r);
            let mut msg = ascii_bytes("ic-hashtree-fork");
            append_bytes(&mut msg, left.as_slice());
            append_bytes(&mut msg, right.as_slice());
            sha256(msg.as_slice())
        },
        HashTree::Labeled(label, sub) => {
            let subhash = hash_tree(sub);
            let mut msg = ascii_bytes("ic-hashtree-labeled");
            append_bytes(&mut msg, label.as_slice());
            append_bytes(&mut msg, subhash.as_slice());
            sha256(msg.as_slice())
        },
        HashTree::Leaf(data) => {
            let mut msg = ascii_bytes("ic-hashtree-leaf");
            append_bytes(&mut msg, data.as_slice());
            sha256(msg.as_slice())
        },
        HashTree::Pruned(d) => {
            let mut digest = [0u8; 32];
            let mut i: usize = 0;
            while i < 32
                invariant
                    d@.len() == 32,
                    i <= 32,
                    digest@.len() == 32,
                    forall|j: int| 0 <= j < i ==> digest@[j] == d@[j],
                decreases 32 - i,
            {
                digest[i] = d[i];
                i = i + 1;
            }
            assert(digest@ =~= d@);
            digest
        },
    }
}

/// The integer a CBOR item encodes, if it encodes one.
pub open spec fn cbor_int_of(bytes: Seq<u8>) -> Option<int> {
    match cbor_item_decoding(bytes) {
        Some(CborView::Integer(i)) => Some(i),
        _ => None,
    }
}

/// The byte string a CBOR item encodes, if it encodes one.
pub open spec fn cbor_bytes_of(bytes: Seq<u8>) -> Option<Seq<u8>> {
    match cbor_item_decoding(bytes) {
        Some(CborView::Bytes(b)) => Some(b),
        _ => None,
    }
}

/// Reading a hash tree from its CBOR encoding: `0` is the empty tree,
/// `[1, l, r]` a fork, `[2, label, t]` a labeled subtree, `[3, data]` a leaf
/// and `[4, digest]` a pruned subtree with a 32-byte digest; `None` for any
/// other shape, and for nesting deeper than `fuel`.
pub open spec fn tree_decoding(bytes: Seq<u8>, fuel: nat) -> Option<TreeView>
    decreases fuel,
{
    if fuel == 0 {
        None
    } else {
        match cbor_item_decoding(bytes) {
            Some(CborView::Integer(i)) => if i == 0 { Some(TreeView::Empty) } else { None },
            Some(CborView::Array(items)) => if items.len() == 3 {
                let tag = cbor_int_of(items[0]);
                if tag == Some(1int) {
                    match (tree_decoding(items[1], (fuel - 1) as nat), tree_decoding(items[2], (fuel - 1) as nat)) {
                        (Some(l), Some(r)) => Some(TreeView::Fork(Box::new(l), Box::new(r))),
                        _ => None,
                    }
                } else if tag == Some(2int) {
                    match (cbor_bytes_of(items[1]), tree_decoding(items[2], (fuel - 1) as nat)) {
                        (Some(label), Some(sub)) => Some(TreeView::Labeled(label, Box::new(sub))),
                        _ => None,
                    }
                } else {
                    None
                }
            } else if items.len() == 2 {
                let tag = cbor_int_of(items[0]);
                if tag == Some(3int) {
                    match cbor_bytes_of(items[1]) {
                        Some(data) => Some(TreeView::Leaf(data)),
                        None => None,
                    }
                } else if tag == Some(4int) {
                    match cbor_bytes_of(items[1]) {
                        Some(d) => if d.len() == 32 { Some(TreeView::Pruned(d)) } else { None },
                        None => None,
                    }
                } else {
                    None
                }
            } else {
                None
            },
            _ => None,
        }
    }
}

/// The integer a CBOR item encodes, if it encodes one.
pub fn cbor_int(bytes: &[u8]) -> (res: Option<i128>)
    ensures
        match res {
            Some(i) => cbor_int_of(bytes@) == Some(i as int),
            None => cbor_int_of(bytes@) is None,
        },
{
    match cbor_item(bytes) {
        Some(CborItem::Integer(i)) => Some(i),
        _ => None,
    }
}

/// The byte string a CBOR item encodes, if it encodes one.
pub fn cbor_bytes(bytes: &[u8]) -> (res: Option<Vec<u8>>)
    ensures
        match res {
            Some(b) => cbor_bytes_of(bytes@) == Some(b@),
            None => cbor_bytes_of(bytes@) is None,
        },
{
    match cbor_item(bytes) {
        Some(CborItem::Bytes(b)) => Some(b),
        _ => None,
    }
}

/// Reads a hash tree from its CBOR encoding, following at most `fuel`
/// levels of nesting.
pub fn tree_from_cbor(bytes: &[u8], fuel: usize) -> (res: Option<HashTree>)
    ensures
        match res {
            Some(t) => tree_decoding(bytes@, fuel as nat) == Some(tree_view(t)) && tree_wf(t),
            None => tree_decoding(bytes@, fuel as nat) is None,
        },
    decreases fuel,
{
    if fuel == 0 {
        return None;
    }
    match cbor_item(bytes) {
        Some(CborItem::Integer(i)) => {
            if i == 0 {
                Some(HashTree::Empty)
            } else {
                None
            }
        },
        Some(CborItem::Array(items)) => {
            proof {
                assert(cbor_item_decoding(bytes@) == Some(CborView::Array(items@.map_values(|x: Vec<u8>| x@))));
            }
            let ghost iv = items@.map_values(|x: Vec<u8>| x@);
            if items.len() == 3 {
                assert(iv[0] == items@[0]@ && iv[1] == items@[1]@ && iv[2] == items@[2]@);
                let tag = cbor_int(items[0].as_slice());
                if tag == Some(1i128) {
                    let left = match tree_from_cbor(items[1].as_slice(), fuel - 1) {
                        Some(t) => t,
                        None => return None,
                    };
                    let right = match tree_from_cbor(items[2].as_slice(), fuel - 1) {
                        Some(t) => t,
                        None => return None,
                    };
                    Some(HashTree::Fork(Box::new(left), Box::new(right)))
                } else if tag == Some(2i128) {
                    let label = match cbor_bytes(items[1].as_slice()) {
                        Some(l) => l,
                        None => return None,
                    };
                    let sub = match tree_from_cbor(items[2].as_slice(), fuel - 1) {
                        Some(t) => t,
                        None => return None,
                    };
                    Some(HashTree::Labeled(label, Box::new(sub)))
                } else {
                    None
                }
            } else if items.len() == 2 {
                assert(iv[0] == items@[0]@ && iv[1] == items@[1]@);
                let tag = cbor_int(items[0].as_slice());
                if tag == Some(3i128) {
                    match cbor_bytes(items[1].as_slice()) {
                        Some(data) => Some(HashTree::Leaf(data)),
                        None => None,
                    }
                } else if tag == Some(4i128) {
                    match cbor_bytes(items[1].as_slice()) {
                        Some(d) => if d.len() == 32 {
                            Some(HashTree::Pruned(d))
                        } else {
                            None
                        },
                        None => None,
                    }
                } else {
                    None
                }
            } else {
                None
            }
        },
        _ => None,
    }
}

/// The value of the first entry of a CBOR map whose key is the text `key`.
pub open spec fn map_lookup(entries: Seq<(Seq<u8>, Seq<u8>)>, key: Seq<u8>) -> Option<Seq<u8>>
    decreases entries.len(),
{
    if entries.len() == 0 {
        None
    } else if cbor_item_decoding(entries[0].0) == Some(CborView::Text(key)) {
        Some(entries[0].1)
    } else {
        map_lookup(entries.drop_first(), key)
    }
}

/// The value of the first entry of a CBOR map whose key is the text `key`.
pub fn cbor_lookup(entries: &Vec<(Vec<u8>, Vec<u8>)>, key: &[u8]) -> (res: Option<Vec<u8>>)
    ensures
        match res {
            Some(v) => map_lookup(entries@.map_values(|e: (Vec<u8>, Vec<u8>)| (e.0@, e.1@)), key@) == Some(v@),
            None => map_lookup(entries@.map_values(|e: (Vec<u8>, Vec<u8>)| (e.0@, e.1@)), key@) is None,
        },
{
    let ghost ev = entries@.map_values(|e: (Vec<u8>, Vec<u8>)| (e.0@, e.1@));
    let mut i: usize = 0;
    assert(ev.skip(0) =~= ev);
    while i < entries.len()
        invariant
            i <= entries@.len(),
            ev == entries@.map_values(|e: (Vec<u8>, Vec<u8>)| (e.0@, e.1@)),
            map_lookup(ev, key@) == map_lookup(ev.skip(i as int), key@),
        decreases entries@.len() - i,
    {
        assert(ev.skip(i as int)[0] == ev[i as int]);
        assert(ev.skip(i as int).drop_first() =~= ev.skip(i + 1));
        let is_key = match cbor_item(entries[i].0.as_slice()) {
            Some(CborItem::Text(t)) => bytes_equal(t.as_slice(), key),
            _ => false,
        };
        if is_key {
            return Some(crate::bytes::copy_all(entries[i].1.as_slice()));
        }
        i = i + 1;
    }
    None
}

/// The tree `t` with the subtree reached along `path` replaced by a pruned
/// node holding that subtree's digest (`None` when `path` leads nowhere).
/// A step `false` goes to a fork's left side or into a labeled subtree, a
/// step `true` to a fork's right side.
pub open spec fn prune_at(t: TreeView, path: Seq<bool>) -> Option<TreeView>
    decreases path.len(),
{
    if path.len() == 0 {
        Some(TreeView::Pruned(tree_digest(t)))
    } else {
        match t {
            TreeView::Fork(l, r) => if !path[0] {
                match prune_at(*l, path.drop_first()) {
                    Some(l2) => Some(TreeView::Fork(Box::new(l2), r)),
                    None => None,
                }
            } else {
                match prune_at(*r, path.drop_first()) {
                    Some(r2) => Some(TreeView::Fork(l, Box::new(r2))),
                    None => None,
                }
            },
            TreeView::Labeled(label, sub) => if !path[0] {
                match prune_at(*sub, path.drop_first()) {
                    Some(s2) => Some(TreeView::Labeled(label, Box::new(s2))),
                    None => None,
                }
            } else {
                None
            },
            _ => None,
        }
    }
}

/// Pruning keeps the root hash: replacing any subtree by a pruned node that
/// holds the subtree's digest leaves the digest of the whole tree unchanged.
pub proof fn lemma_pruning_keeps_digest(t: TreeView, path: Seq<bool>)
    requires
        prune_at(t, path) is Some,
    ensures
        tree_digest(prune_at(t, path)->Some_0) == tree_digest(t),
    decreases path.len(),
{
    if path.len() > 0 {
        match t {
            TreeView::Fork(l, r) => if !path[0] {
                lemma_pruning_keeps_digest(*l, path.drop_first());
            } else {
                lemma_pruning_keeps_digest(*r, path.drop_first());
            },
            TreeView::Labeled(label, sub) => {
                lemma_pruning_keeps_digest(*sub, path.drop_first());
            },
            _ => {},
        }
    }
}

} // verus!
