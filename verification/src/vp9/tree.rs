//! VP9 token trees: a tree is an array of node pairs; a non-positive entry is
//! a leaf holding `-token`, a positive entry the index of a child pair. A
//! token is coded as the bools along its root-to-leaf path, each with the
//! probability of the node it leaves (`probs[node >> 1]`).
use vstd::prelude::*;
use crate::vp9::bool_coder::{BoolEncoder, spec_put_bools};

verus! {

/// A well-formed tree: non-empty, whole node pairs, every child index past
/// the current entry and inside the array, and no leaf equal to `-128`.
pub open spec fn tree_wf(t: Seq<i8>) -> bool {
    &&& t.len() >= 2
    &&& t.len() % 2 == 0
    &&& t.len() <= 1000
    &&& forall|i: int|
        0 <= i < t.len() ==> #[trigger] t[i] > -128 && (t[i] > 0 ==> t[i] as int > i && t[i] + 1
            < t.len())
}

/// The root-to-leaf path to `token` from `node` as `(node, bit)` steps, or
/// `None` when the subtree does not hold it. The `0` branch is searched first.
pub open spec fn spec_tree_path(t: Seq<i8>, node: int, token: i8) -> Option<Seq<(usize, bool)>>
    decreases t.len() - node,
{
    if node < 0 || node + 1 >= t.len() {
        None
    } else {
        let c0 = t[node] as int;
        let c1 = t[node + 1] as int;
        let r0: Option<Seq<(usize, bool)>> = if c0 <= 0 {
            if -c0 == token {
                Some(seq![(node as usize, false)])
            } else {
                None
            }
        } else if c0 > node && c0 < t.len() {
            match spec_tree_path(t, c0, token) {
                Some(rest) => Some(seq![(node as usize, false)] + rest),
                None => None,
            }
        } else {
            None
        };
        if r0 is Some {
            r0
        } else if c1 <= 0 {
            if -c1 == token {
                Some(seq![(node as usize, true)])
            } else {
                None
            }
        } else if c1 > node + 1 && c1 < t.len() {
            match spec_tree_path(t, c1, token) {
                Some(rest) => Some(seq![(node as usize, true)] + rest),
                None => None,
            }
        } else {
            None
        }
    }
}

/// Every node on a path lies inside the tree.
pub open spec fn path_in_tree(path: Seq<(usize, bool)>, len: int) -> bool {
    forall|k: int| 0 <= k < path.len() ==> (#[trigger] path[k]).0 < len
}

pub proof fn lemma_path_in_tree(t: Seq<i8>, node: int, token: i8)
    requires
        tree_wf(t),
    ensures
        spec_tree_path(t, node, token) matches Some(p) ==> path_in_tree(p, t.len() as int) && p.len()
            >= 1,
    decreases t.len() - node,
{
    if 0 <= node && node + 1 < t.len() {
        let c0 = t[node] as int;
        let c1 = t[node + 1] as int;
        if c0 > node {
            lemma_path_in_tree(t, c0, token);
        }
        if c1 > node + 1 {
            lemma_path_in_tree(t, c1, token);
        }
        if let Some(p) = spec_tree_path(t, node, token) {
            assert forall|k: int| 0 <= k < p.len() implies (#[trigger] p[k]).0 < t.len() by {
                if k > 0 {
                    if c0 > node && spec_tree_path(t, c0, token) is Some {
                        let rest = spec_tree_path(t, c0, token).unwrap();
                        assert(p[k] == rest[k - 1]);
                    } else if c1 > node + 1 && spec_tree_path(t, c1, token) is Some {
                        let rest = spec_tree_path(t, c1, token).unwrap();
                        assert(p[k] == rest[k - 1]);
                    }
                }
            }
        }
    }
}

/// Exec form of [`spec_tree_path`].
pub fn tree_path(tree: &[i8], node: usize, token: i8) -> (r: Option<Vec<(usize, bool)>>)
    requires
        tree_wf(tree@),
    ensures
        match r {
            Some(v) => spec_tree_path(tree@, node as int, token) == Some(v@),
            None => spec_tree_path(tree@, node as int, token) is None,
        },
    decreases tree@.len() - node,
{
    if node >= tree.len() || node + 1 >= tree.len() {
        return None;
    }
    let c0 = tree[node];
    if c0 <= 0 {
        if -c0 == token {
            let mut v = Vec::new();
            v.push((node, false));
            assert(v@ =~= seq![(node, false)]);
            return Some(v);
        }
    } else if (c0 as usize) > node {
        match tree_path(tree, c0 as usize, token) {
            Some(mut rest) => {
                let ghost old_rest = rest@;
                rest.insert(0, (node, false));
                assert(rest@ =~= seq![(node, false)] + old_rest);
                return Some(rest);
            },
            None => {},
        }
    }
    let c1 = tree[node + 1];
    if c1 <= 0 {
        if -c1 == token {
            let mut v = Vec::new();
            v.push((node, true));
            assert(v@ =~= seq![(node, true)]);
            return Some(v);
        }
        None
    } else if (c1 as usize) > node + 1 {
        match tree_path(tree, c1 as usize, token) {
            Some(mut rest) => {
                let ghost old_rest = rest@;
                rest.insert(0, (node, true));
                assert(rest@ =~= seq![(node, true)] + old_rest);
                Some(rest)
            },
            None => None,
        }
    } else {
        None
    }
}

/// The coded decisions for a path: each step's bit with its node's probability.
pub open spec fn path_ops(path: Seq<(usize, bool)>, probs: Seq<u8>) -> Seq<(u8, bool)> {
    Seq::new(path.len(), |k: int| (probs[(path[k].0 / 2) as int], path[k].1))
}

/// Whether `token` is a leaf reachable from the root of `tree`.
pub open spec fn tree_has(tree: Seq<i8>, token: i8) -> bool {
    spec_tree_path(tree, 0, token) is Some
}

/// The token of the leaf reached by walking down from `node`, taking the
/// second child on `true`, exactly when the bits run out there.
pub open spec fn spec_walk(t: Seq<i8>, node: int, bits: Seq<bool>) -> Option<i8>
    decreases bits.len(),
{
    if bits.len() == 0 || node < 0 || node + 1 >= t.len() {
        None
    } else {
        let child = t[if bits[0] { node + 1 } else { node }] as int;
        if child <= 0 {
            if bits.len() == 1 {
                Some((-child) as i8)
            } else {
                None
            }
        } else {
            spec_walk(t, child, bits.drop_first())
        }
    }
}

/// The branch bits of a path.
pub open spec fn path_bits(p: Seq<(usize, bool)>) -> Seq<bool> {
    p.map_values(|s: (usize, bool)| s.1)
}

/// A token's path is decodable: its first step leaves `node`, and walking
/// the tree by its bits ends exactly at the token's leaf.
pub proof fn lemma_tree_path_walks_to_token(t: Seq<i8>, node: int, token: i8)
    requires
        tree_wf(t),
        spec_tree_path(t, node, token) is Some,
    ensures
        spec_tree_path(t, node, token).unwrap()[0].0 == node,
        spec_walk(t, node, path_bits(spec_tree_path(t, node, token).unwrap())) == Some(token),
    decreases t.len() - node,
{
    let p = spec_tree_path(t, node, token).unwrap();
    let c0 = t[node] as int;
    let c1 = t[node + 1] as int;
    assert(t[node] > -128 && t[node + 1] > -128);
    let r0_some = if c0 <= 0 {
        -c0 == token
    } else {
        c0 > node && c0 < t.len() && spec_tree_path(t, c0, token) is Some
    };
    if r0_some {
        if c0 <= 0 {
            assert(path_bits(p) =~= seq![false]);
        } else {
            lemma_tree_path_walks_to_token(t, c0, token);
            let rest = spec_tree_path(t, c0, token).unwrap();
            assert(p == seq![(node as usize, false)] + rest);
            assert(path_bits(p).drop_first() =~= path_bits(rest));
            assert(path_bits(p)[0] == false);
        }
    } else {
        if c1 <= 0 {
            assert(path_bits(p) =~= seq![true]);
        } else {
            lemma_tree_path_walks_to_token(t, c1, token);
            let rest = spec_tree_path(t, c1, token).unwrap();
            assert(p == seq![(node as usize, true)] + rest);
            assert(path_bits(p).drop_first() =~= path_bits(rest));
            assert(path_bits(p)[0] == true);
        }
    }
}

/// Read one token from the front of `bits`, walking down from `node`:
/// the token and the number of bits its path used.
pub open spec fn spec_read(t: Seq<i8>, node: int, bits: Seq<bool>) -> Option<(i8, nat)>
    decreases bits.len(),
{
    if bits.len() == 0 || node < 0 || node + 1 >= t.len() {
        None
    } else {
        let child = t[if bits[0] { node + 1 } else { node }] as int;
        if child <= 0 {
            Some(((-child) as i8, 1nat))
        } else {
            match spec_read(t, child, bits.drop_first()) {
                Some((tok, n)) => Some((tok, n + 1)),
                None => None,
            }
        }
    }
}

/// Bits that walk to a leaf are read as that leaf's token, whatever
/// follows them.
pub proof fn lemma_walk_reads(t: Seq<i8>, node: int, bits: Seq<bool>, rest: Seq<bool>)
    requires
        spec_walk(t, node, bits) is Some,
    ensures
        spec_read(t, node, bits + rest) == Some((spec_walk(t, node, bits).unwrap(), bits.len())),
    decreases bits.len(),
{
    let child = t[if bits[0] { node + 1 } else { node }] as int;
    assert((bits + rest)[0] == bits[0]);
    if child > 0 {
        lemma_walk_reads(t, child, bits.drop_first(), rest);
        assert((bits + rest).drop_first() =~= bits.drop_first() + rest);
    }
}

/// A token written with its tree is read back from the written bits,
/// whatever follows them.
pub proof fn law_tree_token_read_back(t: Seq<i8>, probs: Seq<u8>, token: i8, rest: Seq<bool>)
    requires
        tree_wf(t),
        tree_has(t, token),
    ensures
        spec_read(t, 0, tree_ops(t, probs, token).map_values(|o: (u8, bool)| o.1) + rest) == Some(
            (token, tree_ops(t, probs, token).len()),
        ),
{
    let p = spec_tree_path(t, 0, token).unwrap();
    lemma_tree_path_walks_to_token(t, 0, token);
    assert(tree_ops(t, probs, token).map_values(|o: (u8, bool)| o.1) =~= path_bits(p));
    lemma_walk_reads(t, 0, path_bits(p), rest);
}

/// The decisions that code `token` with `tree`/`probs`.
pub open spec fn tree_ops(tree: Seq<i8>, probs: Seq<u8>, token: i8) -> Seq<(u8, bool)> {
    path_ops(spec_tree_path(tree, 0, token).unwrap(), probs)
}

/// Encode `token` through a token tree: one bool per node on its path.
pub fn write_tree(e: &mut BoolEncoder, tree: &[i8], probs: &[u8], token: i8)
    requires
        old(e).wf(),
        tree_wf(tree@),
        tree@.len() <= 2 * probs@.len(),
        tree_has(tree@, token),
    ensures
        final(e).wf(),
        final(e)@ == spec_put_bools(old(e)@, tree_ops(tree@, probs@, token)),
{
    proof {
        lemma_path_in_tree(tree@, 0, token);
    }
    let path = match tree_path(tree, 0, token) {
        Some(p) => p,
        None => {
            return;
        },
    };
    let ghost ops = tree_ops(tree@, probs@, token);
    let mut k: usize = 0;
    assert(ops.take(0) =~= Seq::<(u8, bool)>::empty());
    while k < path.len()
        invariant
            k <= path@.len(),
            e.wf(),
            path@ == spec_tree_path(tree@, 0, token).unwrap(),
            path_in_tree(path@, tree@.len() as int),
            tree@.len() <= 2 * probs@.len(),
            ops == path_ops(path@, probs@),
            e@ == spec_put_bools(old(e)@, ops.take(k as int)),
        decreases path@.len() - k,
    {
        let (node, bit) = path[k];
        assert(path@[k as int].0 < tree@.len());
        proof {
            assert(ops.take(k + 1).drop_last() =~= ops.take(k as int));
            assert(ops.take(k + 1).last() == ops[k as int]);
        }
        e.put_bool(probs[node / 2], bit);
        k += 1;
    }
    assert(ops.take(path@.len() as int) =~= ops);
}

} // verus!
