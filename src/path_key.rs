use itertools::Itertools;
use vstd::prelude::*;

verus! {

/// A node's 32-byte public key.
pub type NodeKey = [u8; 32];

/// A relay or provider: its public key and its network address.
#[derive(Debug, PartialEq, Eq)]
pub struct NodeDescriptor {
    pub pub_key: NodeKey,
    pub address: String,
}

impl NodeDescriptor {
    /// An exact copy of this descriptor.
    pub fn duplicate(&self) -> (r: NodeDescriptor)
        ensures
            r == *self,
    {
        NodeDescriptor { pub_key: self.pub_key, address: self.address.clone() }
    }
}

/// The public keys of a path, in path order, concatenated.
pub open spec fn flatten_keys(path: Seq<NodeDescriptor>) -> Seq<u8>
    decreases path.len(),
{
    if path.len() == 0 {
        Seq::empty()
    } else {
        flatten_keys(path.drop_last()) + path.last().pub_key@
    }
}

/// The key of one probe through `path`: the iteration byte, then every node key.
pub open spec fn path_key_of(path: Seq<NodeDescriptor>, iteration: u8) -> Seq<u8> {
    seq![iteration] + flatten_keys(path)
}

/// The node keys of a path, each as a byte sequence.
pub open spec fn node_key_views(path: Seq<NodeDescriptor>) -> Seq<Seq<u8>> {
    Seq::new(path.len(), |i: int| path[i].pub_key@)
}

/// The 32-byte keys that follow the iteration byte of a path key.
pub open spec fn split_keys(key: Seq<u8>) -> Seq<Seq<u8>> {
    Seq::new(((key.len() - 1) / 32) as nat, |i: int| key.subrange(1 + 32 * i, 33 + 32 * i))
}

proof fn lemma_flatten_keys(path: Seq<NodeDescriptor>)
    ensures
        flatten_keys(path).len() == 32 * path.len(),
        forall|j: int|
            0 <= j < path.len() ==> #[trigger] flatten_keys(path).subrange(32 * j, 32 * j + 32)
                == path[j].pub_key@,
    decreases path.len(),
{
    if path.len() > 0 {
        let init = path.drop_last();
        lemma_flatten_keys(init);
        let f = flatten_keys(path);
        assert(path.last().pub_key@.len() == 32);
        assert forall|j: int| 0 <= j < path.len() implies #[trigger] f.subrange(
            32 * j,
            32 * j + 32,
        ) == path[j].pub_key@ by {
            if j < path.len() - 1 {
                assert(init[j] == path[j]);
                assert(f.subrange(32 * j, 32 * j + 32) =~= flatten_keys(init).subrange(
                    32 * j,
                    32 * j + 32,
                ));
            } else {
                assert(f.subrange(32 * j, 32 * j + 32) =~= path.last().pub_key@);
            }
        }
    }
}

/// A path key is one iteration byte followed by 32 bytes per node.
pub proof fn lemma_path_key_len(path: Seq<NodeDescriptor>, iteration: u8)
    ensures
        path_key_of(path, iteration).len() == 32 * path.len() + 1,
        path_key_of(path, iteration).len() % 32 == 1,
{
    lemma_flatten_keys(path);
}

/// Splitting the key of a probe through `path` gives back the path's node keys,
/// whatever the iteration.
pub proof fn lemma_path_key_round_trip(path: Seq<NodeDescriptor>, iteration: u8)
    ensures
        split_keys(path_key_of(path, iteration)) == node_key_views(path),
{
    lemma_flatten_keys(path);
    let key = path_key_of(path, iteration);
    let s = split_keys(key);
    assert(s.len() == path.len());
    assert forall|i: int| 0 <= i < path.len() implies s[i] == node_key_views(path)[i] by {
        assert(key.subrange(1 + 32 * i, 33 + 32 * i) =~= flatten_keys(path).subrange(
            32 * i,
            32 * i + 32,
        ));
    }
    assert(s =~= node_key_views(path));
}

/// The key of one probe through `path`, made distinct per `iteration`.
pub fn unique_path_key(path: &Vec<NodeDescriptor>, iteration: u8) -> (r: Vec<u8>)
    requires
        32 * path@.len() + 1 <= usize::MAX,
    ensures
        r@ == path_key_of(path@, iteration),
{
    let mut key: Vec<u8> = Vec::new();
    key.push(iteration);
    let mut i: usize = 0;
    while i < path.len()
        invariant
            0 <= i <= path@.len(),
            key@ == path_key_of(path@.subrange(0, i as int), iteration),
        decreases path@.len() - i,
    {
        let node_key: &NodeKey = &path[i].pub_key;
        let ghost before = key@;
        let mut j: usize = 0;
        while j < 32
            invariant
                0 <= j <= 32,
                node_key@.len() == 32,
                key@ == before + node_key@.subrange(0, j as int),
            decreases 32 - j,
        {
            key.push(node_key[j]);
            j = j + 1;
            assert(key@ =~= before + node_key@.subrange(0, j as int));
        }
        proof {
            let p = path@.subrange(0, i + 1);
            assert(p.drop_last() =~= path@.subrange(0, i as int));
            assert(node_key@.subrange(0, 32) =~= node_key@);
            assert(key@ =~= path_key_of(p, iteration));
        }
        i = i + 1;
    }
    assert(path@.subrange(0, path@.len() as int) =~= path@);
    key
}

/// Relies on itertools::Itertools::chunks: consecutive runs of `size`
/// elements, in order, the last one shorter when `size` does not divide the length.
#[verifier::external_body]
fn chunks_of(bytes: &[u8], size: usize) -> (r: Vec<Vec<u8>>)
    requires
        size > 0,
    ensures
        r@.len() == (bytes@.len() + size - 1) / size as int,
        forall|i: int|
            0 <= i < r@.len() ==> #[trigger] r@[i]@ == bytes@.subrange(
                i * size,
                if i * size + size <= bytes@.len() {
                    i * size + size
                } else {
                    bytes@.len() as int
                },
            ),
{
    bytes.iter().copied().chunks(size).into_iter().map(|chunk| chunk.collect()).collect()
}

fn to_node_key(bytes: &Vec<u8>) -> (r: NodeKey)
    requires
        bytes@.len() == 32,
    ensures
        r@ == bytes@,
{
    let mut key: NodeKey = [0u8; 32];
    let mut i: usize = 0;
    while i < 32
        invariant
            0 <= i <= 32,
            bytes@.len() == 32,
            key@.len() == 32,
            forall|k: int| 0 <= k < i ==> key@[k] == bytes@[k],
        decreases 32 - i,
    {
        key[i] = bytes[i];
        i = i + 1;
    }
    assert(key@ =~= bytes@);
    key
}

/// The node keys held in a path key, in order, without its iteration byte.
pub fn path_key_to_node_keys(path_key: Vec<u8>) -> (r: Vec<NodeKey>)
    requires
        path_key@.len() % 32 == 1,
    ensures
        r@.len() == (path_key@.len() - 1) / 32,
        forall|i: int| 0 <= i < r@.len() ==> #[trigger] r@[i]@ == split_keys(path_key@)[i],
{
    let body = vstd::slice::slice_subrange(path_key.as_slice(), 1, path_key.len());
    let chunks = chunks_of(body, 32);
    let mut keys: Vec<NodeKey> = Vec::new();
    let mut i: usize = 0;
    while i < chunks.len()
        invariant
            0 <= i <= chunks@.len(),
            body@ == path_key@.subrange(1, path_key@.len() as int),
            path_key@.len() % 32 == 1,
            chunks@.len() == (path_key@.len() - 1) / 32,
            forall|k: int|
                0 <= k < chunks@.len() ==> #[trigger] chunks@[k]@ == body@.subrange(
                    k * 32,
                    if k * 32 + 32 <= body@.len() {
                        k * 32 + 32
                    } else {
                        body@.len() as int
                    },
                ),
            keys@.len() == i,
            forall|k: int| 0 <= k < i ==> #[trigger] keys@[k]@ == split_keys(path_key@)[k],
        decreases chunks@.len() - i,
    {
        let ghost c = chunks@[i as int];
        assert(i * 32 + 32 <= body@.len());
        assert(c@ =~= path_key@.subrange(1 + 32 * i, 33 + 32 * i));
        let key = to_node_key(&chunks[i]);
        keys.push(key);
        i = i + 1;
    }
    keys
}

} // verus!
