//! A chain of commit-graph files composed into one logical index.  Global
//! positions enumerate the bottom file's commits first, then each file above
//! it; lookups try the topmost file first, so upper layers shadow lower ones.

use vstd::prelude::*;

use crate::file::{Commit, Error, File};
use crate::util::lex_cmp;

verus! {

/// An ordered sequence of commit-graph files, bottom first, with the running
/// total of commits below each file.
#[derive(Debug)]
pub struct Graph {
    /// The component files, bottom to top.
    pub files: Vec<File>,
    /// `cumulative[i]`: how many commits the files below index `i` hold;
    /// one entry more than there are files, starting at zero.
    pub cumulative: Vec<u32>,
}

/// The number of commits in the first `k` files.
pub open spec fn spec_prefix_total(files: Seq<File>, k: int) -> int
    decreases k,
{
    if k <= 0 {
        0
    } else {
        spec_prefix_total(files, k - 1) + files[k - 1].commit_count
    }
}

/// Base-graph linkage: every file declares exactly as many base graphs as
/// there are files below it, and names their checksums in order.
pub open spec fn spec_files_linked(files: Seq<File>) -> bool {
    &&& forall|i: int|
        0 <= i < files.len() ==> (#[trigger] files[i]).base_graph_count as int == i
    &&& forall|i: int, j: int|
        0 <= j < i < files.len() ==> #[trigger] files[i].base_graph_id_spec(j)
            == files[j].checksum_spec()
}

impl Graph {
    pub open spec fn wf(self) -> bool {
        &&& self.cumulative@.len() == self.files@.len() + 1
        &&& self.cumulative@[0] == 0u32
        &&& forall|i: int| 0 <= i < self.files@.len() ==> (#[trigger] self.files@[i]).wf()
        &&& forall|i: int|
            0 <= i < self.files@.len() ==> #[trigger] self.cumulative@[i + 1] as int
                == self.cumulative@[i] as int + self.files@[i].commit_count as int
    }

    /// The number of commits in the whole chain.
    pub open spec fn total_spec(self) -> int {
        self.cumulative@[self.files@.len() as int] as int
    }

    /// Which file holds global position `g`.
    pub open spec fn file_index_spec(self, g: int) -> int {
        choose|i: int|
            0 <= i < self.files@.len() && #[trigger] self.cumulative@[i] <= g < self.cumulative@[i
                + 1]
    }

    /// The local position of global position `g` inside its file.
    pub open spec fn local_of(self, g: int) -> int {
        g - self.cumulative@[self.file_index_spec(g)]
    }

    /// The hash at global position `g`.
    pub open spec fn global_id_spec(self, g: int) -> Seq<u8> {
        self.files@[self.file_index_spec(g)].id_at_spec(self.local_of(g))
    }

    /// Every file's hash table is sorted and its fan-out consistent.
    pub open spec fn spec_indexes_ok(self) -> bool {
        forall|i: int|
            0 <= i < self.files@.len() ==> (#[trigger] self.files@[i]).spec_sorted()
                && self.files@[i].spec_fan_consistent()
    }

    pub open spec fn spec_linkage_ok(self) -> bool {
        spec_files_linked(self.files@)
    }

    /// Compose a chain from its files, bottom first, verifying the base-graph
    /// linkage.  Succeeds exactly when the linkage is consistent and the total
    /// commit count is representable.
    pub fn from_files(files: Vec<File>) -> (r: Result<Graph, Error>)
        requires
            forall|i: int| 0 <= i < files@.len() ==> (#[trigger] files@[i]).wf(),
        ensures
            r matches Ok(g) ==> g.wf() && g.files@ == files@ && g.spec_linkage_ok()
                && g.total_spec() == spec_prefix_total(files@, files@.len() as int),
            r is Ok <==> spec_files_linked(files@) && spec_prefix_total(
                files@,
                files@.len() as int,
            ) <= u32::MAX,
            r matches Err(Error::BaseGraphMismatch { .. }) ==> !spec_files_linked(files@),
            r matches Err(Error::Corrupt(_)) ==> spec_prefix_total(files@, files@.len() as int)
                > u32::MAX,
    {
        let n: usize = files.len();
        let mut cumulative: Vec<u32> = Vec::new();
        cumulative.push(0);
        let mut i: usize = 0;
        while i < n
            invariant
                n == files@.len(),
                forall|k: int| 0 <= k < files@.len() ==> (#[trigger] files@[k]).wf(),
                0 <= i <= n,
                cumulative@.len() == i + 1,
                cumulative@[0] == 0u32,
                forall|k: int|
                    0 <= k < i ==> #[trigger] cumulative@[k + 1] as int == cumulative@[k] as int
                        + files@[k].commit_count as int,
                forall|k: int| 0 <= k <= i ==> #[trigger] cumulative@[k] as int
                    == spec_prefix_total(files@, k),
                forall|k: int| 0 <= k < i ==> (#[trigger] files@[k]).base_graph_count as int == k,
                forall|k: int, j: int|
                    0 <= j < k < i ==> #[trigger] files@[k].base_graph_id_spec(j)
                        == files@[j].checksum_spec(),
            decreases n - i,
        {
            let f: &File = &files[i];
            if f.base_graph_count as usize != i {
                return Err(Error::BaseGraphMismatch {
                    from_header: f.base_graph_count,
                    from_chunk: i as u64,
                });
            }
            let base_ids: Vec<Vec<u8>> = f.iter_base_graphs();
            let mut j: usize = 0;
            while j < i
                invariant
                    n == files@.len(),
                    forall|k: int| 0 <= k < files@.len() ==> (#[trigger] files@[k]).wf(),
                    0 <= i < n,
                    0 <= j <= i,
                    files@[i as int].base_graph_count == i,
                    base_ids@.len() == i,
                    forall|k: int|
                        0 <= k < i ==> #[trigger] base_ids@[k]@ == files@[i as int].base_graph_id_spec(
                            k,
                        ),
                    forall|k: int|
                        0 <= k < j ==> #[trigger] files@[i as int].base_graph_id_spec(k)
                            == files@[k].checksum_spec(),
                decreases i - j,
            {
                let expected: Vec<u8> = files[j].checksum();
                let c: i32 = lex_cmp(base_ids[j].as_slice(), expected.as_slice());
                if c != 0 {
                    return Err(Error::BaseGraphMismatch {
                        from_header: files[i].base_graph_count,
                        from_chunk: j as u64,
                    });
                }
                j = j + 1;
            }
            let last: u32 = cumulative[i];
            let next: u64 = last as u64 + f.commit_count as u64;
            if next > u32::MAX as u64 {
                proof {
                    lemma_prefix_total_monotonic(files@, i + 1, files@.len() as int);
                }
                return Err(Error::Corrupt("total commit count of the chain overflows".to_owned()));
            }
            cumulative.push(next as u32);
            i = i + 1;
        }
        proof {
            assert(cumulative@[n as int] as int == spec_prefix_total(files@, n as int));
            assert(spec_prefix_total(files@, files@.len() as int) <= u32::MAX);
            assert(spec_files_linked(files@));
        }
        Ok(Graph { files, cumulative })
    }

    /// The number of commits in the chain.
    pub fn len(&self) -> (r: u32)
        requires
            self.wf(),
        ensures
            r as int == self.total_spec(),
    {
        self.cumulative[self.files.len()]
    }

    /// Split a global position into its file index and local position.
    fn locate(&self, g: u32) -> (r: (usize, u32))
        requires
            self.wf(),
            (g as int) < self.total_spec(),
        ensures
            r.0 as int == self.file_index_spec(g as int),
            r.0 < self.files@.len(),
            r.1 as int == self.local_of(g as int),
            r.1 < self.files@[r.0 as int].commit_count,
            self.cumulative@[r.0 as int] <= g,
    {
        let n: usize = self.files.len();
        let mut i: usize = 0;
        while i < n
            invariant
                self.wf(),
                n == self.files@.len(),
                (g as int) < self.total_spec(),
                0 <= i <= n,
                g >= self.cumulative@[i as int],
            decreases n - i,
        {
            if g < self.cumulative[i + 1] {
                proof {
                    lemma_bracket_unique(*self, g as int, i as int);
                }
                return (i, g - self.cumulative[i]);
            }
            i = i + 1;
        }
        // a position below the total always falls inside some file's bracket,
        // so the scan above cannot run off the end
        proof {
            assert(false);
        }
        (0, 0)
    }

    /// Find the global position of `id`, trying the topmost file first.  A
    /// returned position always holds `id`; when every file's index is sound,
    /// a present hash is always found, and the topmost holder wins.
    #[verifier::rlimit(100)]
    #[verifier::spinoff_prover]
    pub fn lookup(&self, id: &[u8]) -> (r: Option<u32>)
        requires
            self.wf(),
            id@.len() == 20,
        ensures
            r matches Some(g) ==> (g as int) < self.total_spec() && self.global_id_spec(g as int)
                == id@,
            (forall|g: int| 0 <= g < self.total_spec() ==> self.global_id_spec(g) != id@) ==> r
                is None,
            (self.spec_indexes_ok() && (exists|g: int|
                0 <= g < self.total_spec() && self.global_id_spec(g) == id@)) ==> r is Some,
            r matches Some(g) ==> (self.spec_indexes_ok() ==> (forall|g2: int|
                0 <= g2 < self.total_spec() && self.global_id_spec(g2) == id@
                    ==> self.file_index_spec(g2) <= self.file_index_spec(g as int))),
    {
        let n: usize = self.files.len();
        proof {
            if self.spec_indexes_ok() {
                assert forall|g: int|
                    0 <= g < self.total_spec() && self.global_id_spec(g) == id@ implies
                    self.file_index_spec(g) < n by {
                    lemma_bracket_exists(*self, g);
                }
            }
        }
        let mut i: usize = n;
        while i > 0
            invariant
                self.wf(),
                id@.len() == 20,
                n == self.files@.len(),
                0 <= i <= n,
                self.spec_indexes_ok() ==> (forall|g: int|
                    0 <= g < self.total_spec() && self.global_id_spec(g) == id@
                        ==> self.file_index_spec(g) < i),
            decreases i,
        {
            let idx: usize = i - 1;
            let found: Option<u32> = self.files[idx].lookup(id);
            match found {
                Some(l) => {
                    proof {
                        lemma_cum_monotonic(*self, idx as int + 1, n as int);
                        assert(self.cumulative@[idx as int + 1] as int == self.cumulative@[idx
                            as int] as int + self.files@[idx as int].commit_count as int);
                    }
                    let g: u32 = self.cumulative[idx] + l;
                    proof {
                        lemma_bracket_unique(*self, g as int, idx as int);
                        assert(self.global_id_spec(g as int) == id@);
                    }
                    return Some(g);
                },
                None => {
                    proof {
                        if self.spec_indexes_ok() {
                            assert forall|g: int|
                                0 <= g < self.total_spec() && self.global_id_spec(g) == id@
                                    implies self.file_index_spec(g) < idx by {
                                let fi = self.file_index_spec(g);
                                lemma_bracket_exists(*self, g);
                                if fi == idx {
                                    let l2 = self.local_of(g);
                                    assert(self.files@[fi].id_at_spec(l2) == id@);
                                    assert(false);
                                }
                            }
                        }
                    }
                },
            }
            i = idx;
        }
        proof {
            if self.spec_indexes_ok() && (exists|g: int|
                0 <= g < self.total_spec() && self.global_id_spec(g) == id@) {
                let g = choose|g: int|
                    0 <= g < self.total_spec() && #[trigger] self.global_id_spec(g) == id@;
                lemma_bracket_exists(*self, g);
                assert(false);
            }
        }
        None
    }

    /// The hash at global position `g`.
    pub fn id_at(&self, g: u32) -> (r: Vec<u8>)
        requires
            self.wf(),
            (g as int) < self.total_spec(),
        ensures
            r@ == self.global_id_spec(g as int),
            r@.len() == 20,
    {
        let (i, l): (usize, u32) = self.locate(g);
        self.files[i].id_at(l)
    }

    /// The commit-data record at global position `g`.
    pub fn commit_at(&self, g: u32) -> (r: Commit)
        requires
            self.wf(),
            (g as int) < self.total_spec(),
        ensures
            ({
                let fi = self.file_index_spec(g as int);
                let l = self.local_of(g as int);
                &&& r.pos as int == l
                &&& r.root_tree_id@ == self.files@[fi].root_tree_spec(l)
                &&& r.parent1 == crate::file::spec_edge(self.files@[fi].parent1_word(l))
                &&& r.parent2 == crate::file::spec_edge(self.files@[fi].parent2_word(l))
                &&& r.generation as int == self.files@[fi].generation_spec(l)
                &&& r.committer_timestamp as int == self.files@[fi].timestamp_spec(l)
            }),
    {
        let (i, l): (usize, u32) = self.locate(g);
        self.files[i].commit_at(l)
    }

    /// All parent positions of the commit at global position `g`; the stored
    /// positions are already global.
    pub fn iter_parents(&self, g: u32) -> (r: Vec<u32>)
        requires
            self.wf(),
            (g as int) < self.total_spec(),
        ensures
            r@ == self.files@[self.file_index_spec(g as int)].parents_spec(
                self.local_of(g as int),
            ),
    {
        let (i, l): (usize, u32) = self.locate(g);
        self.files[i].iter_parents(l)
    }

    /// All hashes of the chain in global position order.
    pub fn iter_ids(&self) -> (r: Vec<Vec<u8>>)
        requires
            self.wf(),
        ensures
            r@.len() == self.total_spec(),
            forall|g: int|
                0 <= g < self.total_spec() ==> #[trigger] r@[g]@ == self.global_id_spec(g),
    {
        let n: usize = self.files.len();
        let mut out: Vec<Vec<u8>> = Vec::new();
        let mut i: usize = 0;
        while i < n
            invariant
                self.wf(),
                n == self.files@.len(),
                0 <= i <= n,
                out@.len() == self.cumulative@[i as int],
                forall|g: int|
                    0 <= g < self.cumulative@[i as int] ==> #[trigger] out@[g]@
                        == self.global_id_spec(g),
            decreases n - i,
        {
            let count: u32 = self.files[i].len();
            let mut p: u32 = 0;
            while p < count
                invariant
                    self.wf(),
                    n == self.files@.len(),
                    0 <= i < n,
                    count == self.files@[i as int].commit_count,
                    0 <= p <= count,
                    out@.len() == self.cumulative@[i as int] + p,
                    forall|g: int|
                        0 <= g < self.cumulative@[i as int] + p ==> #[trigger] out@[g]@
                            == self.global_id_spec(g),
                decreases count - p,
            {
                let id: Vec<u8> = self.files[i].id_at(p);
                out.push(id);
                proof {
                    let ghost g = self.cumulative@[i as int] + p;
                    lemma_bracket_unique(*self, g as int, i as int);
                }
                p = p + 1;
            }
            i = i + 1;
        }
        proof {
            lemma_cum_monotonic(*self, n as int, n as int);
        }
        out
    }
}

/// Chain composition: the commits of file `i` occupy the contiguous block of
/// global positions that starts at `cumulative[i]`, in local order, and a
/// global query at such a position reads exactly that file's record.
pub proof fn lemma_chain_positions(g: Graph, i: int, p: int)
    requires
        g.wf(),
        0 <= i < g.files@.len(),
        0 <= p < g.files@[i].commit_count,
    ensures
        g.cumulative@[i] + p < g.total_spec(),
        g.file_index_spec(g.cumulative@[i] + p) == i,
        g.local_of(g.cumulative@[i] + p) == p,
        g.global_id_spec(g.cumulative@[i] + p) == g.files@[i].id_at_spec(p),
{
    assert(g.cumulative@[i + 1] as int == g.cumulative@[i] as int + g.files@[i].commit_count
        as int);
    lemma_cum_monotonic(g, i + 1, g.files@.len() as int);
    lemma_bracket_unique(g, g.cumulative@[i] + p, i);
}

/// Prefix totals never shrink as more files are counted.
proof fn lemma_prefix_total_monotonic(files: Seq<File>, a: int, b: int)
    requires
        0 <= a <= b,
    ensures
        spec_prefix_total(files, a) <= spec_prefix_total(files, b),
    decreases b - a,
{
    if a < b {
        lemma_prefix_total_monotonic(files, a, b - 1);
    }
}

/// Cumulative counts never shrink.
proof fn lemma_cum_monotonic(g: Graph, a: int, b: int)
    requires
        g.wf(),
        0 <= a <= b <= g.files@.len(),
    ensures
        g.cumulative@[a] <= g.cumulative@[b],
    decreases b - a,
{
    if a < b {
        lemma_cum_monotonic(g, a, b - 1);
        assert(g.cumulative@[(b - 1) + 1] as int == g.cumulative@[b - 1] as int + g.files@[b
            - 1].commit_count as int);
    }
}

/// A global position lies in exactly one file's bracket.
proof fn lemma_bracket_unique(g: Graph, gpos: int, i: int)
    requires
        g.wf(),
        0 <= i < g.files@.len(),
        g.cumulative@[i] <= gpos < g.cumulative@[i + 1],
    ensures
        g.file_index_spec(gpos) == i,
{
    assert(exists|k: int|
        0 <= k < g.files@.len() && #[trigger] g.cumulative@[k] <= gpos < g.cumulative@[k + 1]);
    let i2 = g.file_index_spec(gpos);
    assert(0 <= i2 < g.files@.len() && g.cumulative@[i2] <= gpos < g.cumulative@[i2 + 1]);
    if i2 < i {
        lemma_cum_monotonic(g, i2 + 1, i);
        assert(false);
    } else if i < i2 {
        lemma_cum_monotonic(g, i + 1, i2);
        assert(false);
    }
}

/// Every global position below the total lies in some file's bracket.
proof fn lemma_bracket_exists(g: Graph, gpos: int)
    requires
        g.wf(),
        0 <= gpos < g.total_spec(),
    ensures
        0 <= g.file_index_spec(gpos) < g.files@.len(),
        g.cumulative@[g.file_index_spec(gpos)] <= gpos < g.cumulative@[g.file_index_spec(gpos)
            + 1],
        g.local_of(gpos) < g.files@[g.file_index_spec(gpos)].commit_count,
{
    lemma_bracket_exists_helper(g, gpos, g.files@.len() as int);
    let i = choose|k: int|
        0 <= k < g.files@.len() && #[trigger] g.cumulative@[k] <= gpos < g.cumulative@[k + 1];
    lemma_bracket_unique(g, gpos, i);
}

proof fn lemma_bracket_exists_helper(g: Graph, gpos: int, n: int)
    requires
        g.wf(),
        0 <= n <= g.files@.len(),
        0 <= gpos < g.cumulative@[n],
    ensures
        exists|k: int| 0 <= k < n && #[trigger] g.cumulative@[k] <= gpos < g.cumulative@[k + 1],
    decreases n,
{
    if n > 0 {
        if gpos >= g.cumulative@[n - 1] {
            assert(g.cumulative@[n - 1] <= gpos < g.cumulative@[n]);
        } else {
            lemma_bracket_exists_helper(g, gpos, n - 1);
        }
    }
}

} // verus!
