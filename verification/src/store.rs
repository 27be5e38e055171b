//! The data blocks that scripts read, by namespace and name.
use vstd::prelude::*;

use crate::error::ScriptError;

verus! {

/// The content registered under a namespace and a name.
#[derive(Debug)]
struct DataBlock {
    namespace: String,
    name: String,
    content: String,
}

spec fn block_key(b: DataBlock) -> (Seq<char>, Seq<char>) {
    (b.namespace@, b.name@)
}

/// The execution environment of a script: the data blocks it can read.
#[derive(Debug)]
pub struct NubScript {
    blocks: Vec<DataBlock>,
}

/// Why a data block cannot be read.
pub enum LookupFailure {
    /// No data block is registered under the namespace.
    NoNamespace,
    /// The namespace has no data block of that name.
    NoBlock,
}

/// Reading the data block `name` of `namespace` from `blocks`.
pub open spec fn lookup(
    blocks: Map<(Seq<char>, Seq<char>), Seq<char>>,
    namespace: Seq<char>,
    name: Seq<char>,
) -> Result<Seq<char>, LookupFailure> {
    if blocks.dom().contains((namespace, name)) {
        Ok(blocks[(namespace, name)])
    } else if exists|other: Seq<char>| #[trigger] blocks.dom().contains((namespace, other)) {
        Err(LookupFailure::NoBlock)
    } else {
        Err(LookupFailure::NoNamespace)
    }
}

impl NubScript {
    #[verifier::type_invariant]
    spec fn keys_unique(self) -> bool {
        forall|i: int, j: int|
            0 <= i < j < self.blocks@.len() ==> block_key(#[trigger] self.blocks@[i])
                != block_key(#[trigger] self.blocks@[j])
    }

    spec fn has_key(self, k: (Seq<char>, Seq<char>)) -> bool {
        exists|i: int| 0 <= i < self.blocks@.len() && block_key(#[trigger] self.blocks@[i]) == k
    }

    spec fn index_of(self, k: (Seq<char>, Seq<char>)) -> int {
        choose|i: int| 0 <= i < self.blocks@.len() && block_key(#[trigger] self.blocks@[i]) == k
    }

    /// The registered contents, by namespace and name.
    pub closed spec fn blocks(self) -> Map<(Seq<char>, Seq<char>), Seq<char>> {
        Map::new(|k: (Seq<char>, Seq<char>)| self.has_key(k), |k: (Seq<char>, Seq<char>)| self.blocks@[self.index_of(k)].content@)
    }

    /// An environment with no data blocks.
    pub fn new() -> (r: Self)
        ensures
            r.blocks() == Map::<(Seq<char>, Seq<char>), Seq<char>>::empty(),
    {
        let r = NubScript { blocks: Vec::new() };
        assert(r.blocks() =~= Map::<(Seq<char>, Seq<char>), Seq<char>>::empty());
        r
    }

    /// Registers `content` as the data block `name` of `namespace`, in place
    /// of any content registered there before.
    pub fn add_data_block_content(&mut self, namespace: &str, name: &str, content: &str)
        ensures
            final(self).blocks() == old(self).blocks().insert((namespace@, name@), content@),
    {
        proof {
            use_type_invariant(&*self);
        }
        let ns = String::from_str(namespace);
        let nm = String::from_str(name);
        let ghost k = (namespace@, name@);
        let n = self.blocks.len();
        let mut i: usize = 0;
        while i < n
            invariant
                n == self.blocks@.len(),
                0 <= i <= n,
                ns@ == namespace@,
                nm@ == name@,
                k == (namespace@, name@),
                self.keys_unique(),
                *self == *old(self),
                forall|j: int| 0 <= j < i ==> block_key(#[trigger] self.blocks@[j]) != k,
            decreases n - i,
        {
            if self.blocks[i].namespace == ns && self.blocks[i].name == nm {
                let ghost before = *self;
                let block = DataBlock { namespace: ns, name: nm, content: String::from_str(content) };
                let mut blocks: Vec<DataBlock> = Vec::new();
                std::mem::swap(&mut blocks, &mut self.blocks);
                proof {
                    assert forall|a: int, b: int|
                        0 <= a < b < before.blocks@.len() implies block_key(
                        #[trigger] before.blocks@.update(i as int, block)[a],
                    ) != block_key(#[trigger] before.blocks@.update(i as int, block)[b]) by {
                        assert(block_key(before.blocks@[a]) != block_key(before.blocks@[b]));
                    }
                }
                blocks.set(i, block);
                self.blocks = blocks;
                proof {
                    assert forall|kk: (Seq<char>, Seq<char>)| #[trigger] self.has_key(kk) == before.has_key(kk) by {
                        if self.has_key(kk) {
                            let j = choose|j: int| 0 <= j < self.blocks@.len() && block_key(#[trigger] self.blocks@[j]) == kk;
                            if j != i {
                                assert(block_key(before.blocks@[j]) == kk);
                            } else {
                                assert(block_key(before.blocks@[i as int]) == kk);
                            }
                        }
                        if before.has_key(kk) {
                            let j = choose|j: int| 0 <= j < before.blocks@.len() && block_key(#[trigger] before.blocks@[j]) == kk;
                            assert(block_key(self.blocks@[j]) == kk);
                        }
                    }
                    assert forall|kk: (Seq<char>, Seq<char>)| self.has_key(kk) implies
                        #[trigger] self.blocks@[self.index_of(kk)].content@ == (if kk == k { content@ } else { before.blocks@[before.index_of(kk)].content@ }) by {
                        let j = self.index_of(kk);
                        let j0 = before.index_of(kk);
                        assert(block_key(self.blocks@[j]) == kk);
                        assert(block_key(before.blocks@[j0]) == kk);
                        if kk == k {
                            if j != i {
                                assert(block_key(self.blocks@[i as int]) == k);
                            }
                        } else {
                            assert(j != i);
                            assert(j0 != i);
                            if j != j0 {
                                assert(block_key(self.blocks@[j0]) == kk);
                            }
                        }
                    }
                    assert(self.blocks() =~= before.blocks().insert(k, content@));
                }
                return;
            }
            i = i + 1;
        }
        let ghost before = *self;
        let block = DataBlock { namespace: ns, name: nm, content: String::from_str(content) };
        proof {
            assert forall|a: int, b: int|
                0 <= a < b < before.blocks@.len() + 1 implies block_key(
                #[trigger] before.blocks@.push(block)[a],
            ) != block_key(#[trigger] before.blocks@.push(block)[b]) by {
                if b < before.blocks@.len() {
                    assert(block_key(before.blocks@[a]) != block_key(before.blocks@[b]));
                }
            }
        }
        let mut blocks: Vec<DataBlock> = Vec::new();
        std::mem::swap(&mut blocks, &mut self.blocks);
        blocks.push(block);
        self.blocks = blocks;
        proof {
            assert(!before.has_key(k));
            assert forall|kk: (Seq<char>, Seq<char>)| #[trigger] self.has_key(kk) == (before.has_key(kk) || kk == k) by {
                if self.has_key(kk) {
                    let j = choose|j: int| 0 <= j < self.blocks@.len() && block_key(#[trigger] self.blocks@[j]) == kk;
                    if j < n {
                        assert(block_key(before.blocks@[j]) == kk);
                    }
                }
                if before.has_key(kk) {
                    let j = choose|j: int| 0 <= j < before.blocks@.len() && block_key(#[trigger] before.blocks@[j]) == kk;
                    assert(block_key(self.blocks@[j]) == kk);
                }
                if kk == k {
                    assert(block_key(self.blocks@[n as int]) == kk);
                }
            }
            assert forall|kk: (Seq<char>, Seq<char>)| self.has_key(kk) implies
                #[trigger] self.blocks@[self.index_of(kk)].content@ == (if kk == k { content@ } else { before.blocks@[before.index_of(kk)].content@ }) by {
                let j = self.index_of(kk);
                assert(block_key(self.blocks@[j]) == kk);
                if kk == k {
                    if j != n {
                        assert(block_key(self.blocks@[n as int]) == k);
                    }
                } else {
                    let j0 = before.index_of(kk);
                    assert(block_key(before.blocks@[j0]) == kk);
                    assert(j != n);
                    if j != j0 {
                        assert(block_key(self.blocks@[j0]) == kk);
                    }
                }
            }
            assert(self.blocks() =~= before.blocks().insert(k, content@));
        }
    }

    /// Reads the data block `name` of `namespace`.
    pub fn get_data_block(&self, namespace: &str, name: &str) -> (r: Result<String, ScriptError>)
        ensures
            match lookup(self.blocks(), namespace@, name@) {
                Ok(c) => r matches Ok(s) && s@ == c,
                Err(LookupFailure::NoBlock) => r matches Err(ScriptError::DataBlockNotFound(ns, nm))
                    && ns@ == namespace@ && nm@ == name@,
                Err(LookupFailure::NoNamespace) => r matches Err(ScriptError::NamespaceNotFound(ns))
                    && ns@ == namespace@,
            },
    {
        proof {
            use_type_invariant(self);
        }
        let ns = String::from_str(namespace);
        let nm = String::from_str(name);
        let mut ns_seen = false;
        let n = self.blocks.len();
        for i in 0..n
            invariant
                n == self.blocks@.len(),
                ns@ == namespace@,
                nm@ == name@,
                self.keys_unique(),
                forall|j: int| 0 <= j < i ==> block_key(#[trigger] self.blocks@[j]) != (namespace@, name@),
                ns_seen <==> exists|j: int| 0 <= j < i && (#[trigger] self.blocks@[j]).namespace@ == namespace@,
        {
            if self.blocks[i].namespace == ns {
                ns_seen = true;
                if self.blocks[i].name == nm {
                    proof {
                        let k = (namespace@, name@);
                        assert(block_key(self.blocks@[i as int]) == k);
                        assert(self.has_key(k));
                        let j = self.index_of(k);
                        if j != i {
                            assert(block_key(self.blocks@[j]) == k);
                        }
                        assert(self.blocks().dom().contains(k));
                    }
                    return Ok(self.blocks[i].content.clone());
                }
            }
        }
        proof {
            assert(!self.blocks().dom().contains((namespace@, name@)));
            if ns_seen {
                let j = choose|j: int| 0 <= j < n && (#[trigger] self.blocks@[j]).namespace@ == namespace@;
                assert(block_key(self.blocks@[j]) == (namespace@, self.blocks@[j].name@));
                assert(self.blocks().dom().contains((namespace@, self.blocks@[j].name@)));
            } else {
                assert forall|other: Seq<char>| !#[trigger] self.blocks().dom().contains((namespace@, other)) by {
                    if self.blocks().dom().contains((namespace@, other)) {
                        let j = choose|j: int| 0 <= j < n && block_key(#[trigger] self.blocks@[j]) == (namespace@, other);
                        assert(self.blocks@[j].namespace@ == namespace@);
                    }
                }
            }
        }
        if ns_seen {
            Err(ScriptError::DataBlockNotFound(ns, nm))
        } else {
            Err(ScriptError::NamespaceNotFound(ns))
        }
    }
}

impl NubScript {
    /// The data block `name` of `namespace`, or `None` when there is none:
    /// what a script's `get_data_block` returns.
    pub fn find_data_block(&self, namespace: &str, name: &str) -> (r: Option<String>)
        ensures
            match lookup(self.blocks(), namespace@, name@) {
                Ok(c) => r matches Some(s) && s@ == c,
                Err(_) => r is None,
            },
    {
        match self.get_data_block(namespace, name) {
            Ok(content) => Some(content),
            Err(_) => None,
        }
    }
}

impl Clone for NubScript {
    /// A copy of the registered data blocks.
    fn clone(&self) -> (r: Self)
        ensures
            r.blocks() == self.blocks(),
    {
        proof {
            use_type_invariant(self);
        }
        let mut blocks: Vec<DataBlock> = Vec::new();
        let n = self.blocks.len();
        for i in 0..n
            invariant
                n == self.blocks@.len(),
                self.keys_unique(),
                blocks@.len() == i,
                forall|j: int| 0 <= j < i ==> block_key(#[trigger] blocks@[j]) == block_key(self.blocks@[j])
                    && blocks@[j].content@ == self.blocks@[j].content@,
        {
            let b = &self.blocks[i];
            blocks.push(
                DataBlock {
                    namespace: b.namespace.clone(),
                    name: b.name.clone(),
                    content: b.content.clone(),
                },
            );
        }
        proof {
            assert forall|a: int, b: int|
                0 <= a < b < blocks@.len() implies block_key(#[trigger] blocks@[a]) != block_key(
                #[trigger] blocks@[b],
            ) by {
                assert(block_key(self.blocks@[a]) != block_key(self.blocks@[b]));
            }
        }
        let r = NubScript { blocks };
        proof {
            assert forall|k: (Seq<char>, Seq<char>)| #[trigger] r.has_key(k) == self.has_key(k) by {
                if r.has_key(k) {
                    let j = choose|j: int| 0 <= j < r.blocks@.len() && block_key(#[trigger] r.blocks@[j]) == k;
                    assert(block_key(self.blocks@[j]) == k);
                }
                if self.has_key(k) {
                    let j = choose|j: int| 0 <= j < self.blocks@.len() && block_key(#[trigger] self.blocks@[j]) == k;
                    assert(block_key(r.blocks@[j]) == k);
                }
            }
            assert forall|k: (Seq<char>, Seq<char>)| r.has_key(k) implies #[trigger] r.blocks@[r.index_of(k)].content@
                == self.blocks@[self.index_of(k)].content@ by {
                let j = r.index_of(k);
                let j0 = self.index_of(k);
                assert(block_key(r.blocks@[j]) == k);
                assert(block_key(self.blocks@[j0]) == k);
                assert(block_key(self.blocks@[j]) == k);
                if j != j0 {
                    if j < j0 {
                        assert(block_key(self.blocks@[j]) != block_key(self.blocks@[j0]));
                    } else {
                        assert(block_key(self.blocks@[j0]) != block_key(self.blocks@[j]));
                    }
                }
            }
            assert(r.blocks() =~= self.blocks());
        }
        r
    }
}

impl Default for NubScript {
    fn default() -> (r: Self)
        ensures
            r.blocks() == Map::<(Seq<char>, Seq<char>), Seq<char>>::empty(),
    {
        NubScript::new()
    }
}

/// Reading a data block gives back what was last registered under its
/// namespace and name; registering leaves every other data block as it was.
pub proof fn lemma_read_after_write(
    blocks: Map<(Seq<char>, Seq<char>), Seq<char>>,
    namespace: Seq<char>,
    name: Seq<char>,
    content: Seq<char>,
    other_namespace: Seq<char>,
    other_name: Seq<char>,
)
    requires
        (other_namespace, other_name) != (namespace, name),
    ensures
        lookup(blocks.insert((namespace, name), content), namespace, name) == Ok::<
            Seq<char>,
            LookupFailure,
        >(content),
        lookup(blocks.insert((namespace, name), content), other_namespace, other_name) is Ok
            <==> lookup(blocks, other_namespace, other_name) is Ok,
        lookup(blocks, other_namespace, other_name) is Ok ==> lookup(
            blocks.insert((namespace, name), content),
            other_namespace,
            other_name,
        ) == lookup(blocks, other_namespace, other_name),
        // Once a data block is registered under a namespace, the namespace is known.
        !(lookup(blocks.insert((namespace, name), content), namespace, other_name) matches Err(
            LookupFailure::NoNamespace,
        )),
{
    let after = blocks.insert((namespace, name), content);
    assert(after.dom().contains((namespace, name)));
}

} // verus!
