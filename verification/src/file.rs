//! A single commit-graph file: parsing, validation, and the primitive queries
//! it answers (hash lookup, commit records, parent edges, base-graph list).

use vstd::prelude::*;

use crate::util::{
    be_u32_at, be_u64_at, copy_range, lemma_lex_asym, lemma_lex_irrefl, lemma_lex_trans, lex_cmp,
    lex_less, read_be_u32, read_be_u64,
};

verus! {

/// Number of bytes in a commit hash (SHA-1).
pub const SHA1_SIZE: usize = 20;

/// Number of bytes in one commit-data record: tree hash, two parent edges,
/// packed generation and timestamp.
pub const COMMIT_DATA_ENTRY_SIZE: usize = 36;

/// Number of entries in the fan-out table.
pub const FAN_LEN: usize = 256;

/// Bytes of one entry of the chunk directory: a four-byte id and an eight-byte offset.
pub const CHUNK_LOOKUP_SIZE: usize = 12;

/// Bytes of the file header.
pub const HEADER_LEN: usize = 8;

/// Required chunks: fan-out, hash lookup, commit data.
pub const MIN_CHUNKS: usize = 3;

/// The smallest conceivable file: a header and a directory for the three
/// required chunks plus the sentinel.
pub const MIN_FILE_SIZE: usize = HEADER_LEN + (MIN_CHUNKS + 1) * CHUNK_LOOKUP_SIZE;

/// Chunk ids, read as big-endian 32-bit words of their four ASCII bytes.
pub const BASE_GRAPHS_LIST_CHUNK_ID: u32 = 0x4241_5345;

pub const COMMIT_DATA_CHUNK_ID: u32 = 0x4344_4154;

pub const EXTENDED_EDGES_LIST_CHUNK_ID: u32 = 0x4544_4745;

pub const OID_FAN_CHUNK_ID: u32 = 0x4F49_4446;

pub const OID_LOOKUP_CHUNK_ID: u32 = 0x4F49_444C;

pub const SENTINEL_CHUNK_ID: u32 = 0;

/// A parent-edge word equal to this sentinel marks an absent parent.
pub const NO_PARENT: u32 = 0x7000_0000;

/// A parent-edge word at or above this bit refers into the extra-edges list;
/// in the extra-edges list itself the bit marks the last word of a run.
pub const EDGE_HIGH_BIT: u32 = 0x8000_0000;

/// Everything that can go wrong opening a commit-graph file or composing a chain.
#[derive(Debug, PartialEq, Eq, Clone)]
pub enum Error {
    /// The header declares one number of base graphs, the file another.
    BaseGraphMismatch { from_header: u8, from_chunk: u64 },
    /// Two chunks disagree about how many commits the file holds.
    CommitCountMismatch { chunk1_id: u32, chunk1_commits: u64, chunk2_id: u32, chunk2_commits: u64 },
    /// A structural violation: too short, bad signature, bad sentinel,
    /// non-monotonic offsets, or a first offset inside the directory.
    Corrupt(String),
    /// A recognized chunk id appears more than once.
    DuplicateChunk(u32),
    /// A chunk's size violates its per-chunk constraint.
    InvalidChunkSize(u32, String),
    /// The underlying file could not be opened or mapped.
    Io(String),
    /// A required chunk is absent.
    MissingChunk(u32),
    /// The hash-version header byte is not the one supported.
    UnsupportedHashVersion(u8),
    /// The format-version header byte is not the one supported.
    UnsupportedVersion(u8),
}

/// One parsed commit-graph file, holding the raw bytes and the byte offsets of
/// its chunks.  Immutable after construction.
#[derive(Debug)]
pub struct File {
    /// The file's bytes.
    pub data: Vec<u8>,
    /// Where the file came from, kept for error reporting.
    pub path: String,
    /// The 256-entry cumulative fan-out table.
    pub fan: Vec<u32>,
    /// `fan[255]`: the number of commits in this file.
    pub commit_count: u32,
    /// Byte offset of the sorted hash table.
    pub oid_lookup_offset: usize,
    /// Byte offset of the commit-data records.
    pub commit_data_offset: usize,
    /// Whether the optional extra-edges list is present.
    pub has_extra_edges: bool,
    /// Byte range of the extra-edges list, when present.
    pub extra_edges_start: usize,
    pub extra_edges_end: usize,
    /// Number of base graphs the header declares.
    pub base_graph_count: u8,
    /// Byte offset of the base-graphs list, when one is declared.
    pub base_graphs_offset: usize,
}

impl File {
    /// Structural well-formedness: every stored offset stays within the data.
    pub open spec fn wf(self) -> bool {
        &&& self.fan@.len() == 256
        &&& self.fan@[255] == self.commit_count
        &&& self.data@.len() >= MIN_FILE_SIZE
        &&& self.oid_lookup_offset + 20 * (self.commit_count as int) <= self.data@.len()
        &&& self.commit_data_offset + 36 * (self.commit_count as int) <= self.data@.len()
        &&& (self.has_extra_edges ==> self.extra_edges_start <= self.extra_edges_end
            <= self.data@.len())
        &&& self.base_graphs_offset + 20 * (self.base_graph_count as int) <= self.data@.len()
    }

    /// The hash stored at local position `p`.
    pub open spec fn id_at_spec(self, p: int) -> Seq<u8> {
        self.data@.subrange(
            self.oid_lookup_offset + 20 * p,
            self.oid_lookup_offset + 20 * p + 20,
        )
    }

    /// The first byte of the hash at local position `p`: its fan-out key.
    pub open spec fn id_byte0(self, p: int) -> u8 {
        self.data@[self.oid_lookup_offset + 20 * p]
    }

    /// Byte offset of the commit-data record of local position `p`.
    pub open spec fn cdat_base(self, p: int) -> int {
        self.commit_data_offset + 36 * p
    }

    /// The root-tree hash of the commit at local position `p`.
    pub open spec fn root_tree_spec(self, p: int) -> Seq<u8> {
        self.data@.subrange(self.cdat_base(p) + 0, self.cdat_base(p) + 20)
    }

    /// The raw first parent-edge word of local position `p`.
    pub open spec fn parent1_word(self, p: int) -> int {
        be_u32_at(self.data@, self.cdat_base(p) + 20)
    }

    /// The raw second parent-edge word of local position `p`.
    pub open spec fn parent2_word(self, p: int) -> int {
        be_u32_at(self.data@, self.cdat_base(p) + 24)
    }

    /// The packed generation-and-timestamp word of local position `p`.
    pub open spec fn gen_ts_word(self, p: int) -> int {
        be_u64_at(self.data@, self.cdat_base(p) + 28)
    }

    /// The generation number of local position `p`: the high 30 bits.
    pub open spec fn generation_spec(self, p: int) -> int {
        self.gen_ts_word(p) / 0x4_0000_0000
    }

    /// The committer timestamp of local position `p`: the low 34 bits.
    pub open spec fn timestamp_spec(self, p: int) -> int {
        self.gen_ts_word(p) % 0x4_0000_0000
    }

    /// How many whole 32-bit words the extra-edges list holds.
    pub open spec fn num_extra_words(self) -> int {
        if self.has_extra_edges {
            (self.extra_edges_end - self.extra_edges_start) / 4
        } else {
            0
        }
    }

    /// The extra-edges word at word index `k`.
    pub open spec fn extra_word(self, k: int) -> int {
        be_u32_at(self.data@, self.extra_edges_start + 4 * k)
    }

    /// The base-graph hash at index `j` of the base-graphs list.
    pub open spec fn base_graph_id_spec(self, j: int) -> Seq<u8> {
        self.data@.subrange(self.base_graphs_offset + 20 * j, self.base_graphs_offset + 20 * j + 20)
    }

    /// The file's own trailing checksum hash.
    pub open spec fn checksum_spec(self) -> Seq<u8> {
        self.data@.subrange(self.data@.len() - 20, self.data@.len() as int)
    }

    /// The hash table is sorted strictly: position order is hash order.
    pub open spec fn spec_sorted(self) -> bool {
        forall|p: int, q: int|
            0 <= p < q < self.commit_count ==> lex_less(
                #[trigger] self.id_at_spec(p),
                #[trigger] self.id_at_spec(q),
            )
    }

    /// The fan-out table is consistent with the hash table: for every first
    /// byte `b`, exactly the positions below `fan[b]` hold hashes whose first
    /// byte is at most `b`.
    pub open spec fn spec_fan_consistent(self) -> bool {
        forall|b: int, p: int|
            #![trigger self.fan@[b], self.id_byte0(p)]
            0 <= b < 256 && 0 <= p < self.commit_count ==> ((self.id_byte0(p) as int <= b) <==> p
                < self.fan@[b])
    }
}

/// The file begins with the ASCII signature `CGPH`.
pub open spec fn spec_signature_ok(d: Seq<u8>) -> bool {
    d[0] == 0x43u8 && d[1] == 0x47u8 && d[2] == 0x50u8 && d[3] == 0x48u8
}

/// The declared number of real chunks.
pub open spec fn spec_chunk_count(d: Seq<u8>) -> int {
    d[6] as int
}

/// The declared number of base graphs.
pub open spec fn spec_base_graph_count(d: Seq<u8>) -> int {
    d[7] as int
}

/// Where the chunk directory ends: header plus one entry per chunk plus the sentinel.
pub open spec fn spec_lookup_end(d: Seq<u8>) -> int {
    8 + 12 * (spec_chunk_count(d) + 1)
}

/// The id of directory entry `k`, as a big-endian word of its four bytes.
pub open spec fn entry_id(d: Seq<u8>, k: int) -> int {
    be_u32_at(d, 8 + 12 * k)
}

/// The file offset recorded in directory entry `k`.
pub open spec fn entry_off(d: Seq<u8>, k: int) -> int {
    be_u64_at(d, 8 + 12 * k + 4)
}

/// Whether `id` is one of the five chunk ids this reader knows.
pub open spec fn spec_recognized(id: int) -> bool {
    ||| id == BASE_GRAPHS_LIST_CHUNK_ID as int
    ||| id == COMMIT_DATA_CHUNK_ID as int
    ||| id == EXTENDED_EDGES_LIST_CHUNK_ID as int
    ||| id == OID_FAN_CHUNK_ID as int
    ||| id == OID_LOOKUP_CHUNK_ID as int
}

/// Whether some real directory entry carries `id`.
pub open spec fn spec_has_chunk(d: Seq<u8>, id: int) -> bool {
    exists|k: int| 0 <= k < spec_chunk_count(d) && entry_id(d, k) == id
}

/// The index of the directory entry carrying `id` (unique when no recognized
/// id repeats).
pub open spec fn spec_chunk_index(d: Seq<u8>, id: int) -> int {
    choose|k: int| 0 <= k < spec_chunk_count(d) && entry_id(d, k) == id
}

/// Where the chunk carrying `id` starts.
pub open spec fn spec_chunk_start(d: Seq<u8>, id: int) -> int {
    entry_off(d, spec_chunk_index(d, id))
}

/// Where the chunk carrying `id` ends: the next entry's offset.
pub open spec fn spec_chunk_end(d: Seq<u8>, id: int) -> int {
    entry_off(d, spec_chunk_index(d, id) + 1)
}

/// How many bytes the chunk carrying `id` spans.
pub open spec fn spec_chunk_size(d: Seq<u8>, id: int) -> int {
    spec_chunk_end(d, id) - spec_chunk_start(d, id)
}

/// Header and directory framing: size, signature, versions, directory in
/// bounds, first chunk at or after the directory's end.
#[verifier::opaque]
pub open spec fn spec_prefix_ok(d: Seq<u8>) -> bool {
    &&& d.len() >= MIN_FILE_SIZE
    &&& spec_signature_ok(d)
    &&& d[4] == 1u8
    &&& d[5] == 1u8
    &&& spec_lookup_end(d) <= d.len()
    &&& entry_off(d, 0) >= spec_lookup_end(d)
}

/// Chunk offsets never decrease and every chunk ends strictly before the end
/// of the file (the trailing checksum follows the last chunk).
#[verifier::opaque]
pub open spec fn spec_offsets_ok(d: Seq<u8>) -> bool {
    forall|k: int|
        0 <= k < spec_chunk_count(d) ==> #[trigger] entry_off(d, k) <= entry_off(d, k + 1)
            && entry_off(d, k + 1) < d.len()
}

/// No recognized chunk id appears twice.
#[verifier::opaque]
pub open spec fn spec_no_dup(d: Seq<u8>) -> bool {
    forall|j1: int, j2: int|
        #![trigger entry_id(d, j1), entry_id(d, j2)]
        0 <= j1 < j2 < spec_chunk_count(d) && spec_recognized(entry_id(d, j1)) ==> entry_id(d, j1)
            != entry_id(d, j2)
}

/// The per-chunk size constraints: the fan-out is exactly 1024 bytes, hash
/// tables are a whole number of hashes, commit data a whole number of records.
#[verifier::opaque]
pub open spec fn spec_size_mult_ok_at(d: Seq<u8>, k: int) -> bool {
    let id = entry_id(d, k);
    let size = entry_off(d, k + 1) - entry_off(d, k);
    &&& (id == OID_FAN_CHUNK_ID as int ==> size == 1024)
    &&& (id == OID_LOOKUP_CHUNK_ID as int ==> size % 20 == 0)
    &&& (id == COMMIT_DATA_CHUNK_ID as int ==> size % 36 == 0)
    &&& (id == BASE_GRAPHS_LIST_CHUNK_ID as int ==> size % 20 == 0)
}

/// A base-graphs list must hold exactly as many hashes as the header declares.
#[verifier::opaque]
pub open spec fn spec_base_count_ok_at(d: Seq<u8>, k: int) -> bool {
    entry_id(d, k) == BASE_GRAPHS_LIST_CHUNK_ID as int ==> (entry_off(d, k + 1) - entry_off(d, k))
        / 20 == spec_base_graph_count(d)
}

/// Every real chunk obeys its size-multiple constraint.
#[verifier::opaque]
pub open spec fn spec_sizes_mult_ok(d: Seq<u8>) -> bool {
    forall|k: int| 0 <= k < spec_chunk_count(d) ==> #[trigger] spec_size_mult_ok_at(d, k)
}

/// Every base-graphs list chunk holds as many hashes as the header declares.
#[verifier::opaque]
pub open spec fn spec_base_counts_ok(d: Seq<u8>) -> bool {
    forall|k: int| 0 <= k < spec_chunk_count(d) ==> #[trigger] spec_base_count_ok_at(d, k)
}

/// Every real chunk obeys its size constraint.
pub open spec fn spec_chunks_ok(d: Seq<u8>) -> bool {
    spec_sizes_mult_ok(d) && spec_base_counts_ok(d)
}

/// The final directory entry is the all-zero sentinel.
#[verifier::opaque]
pub open spec fn spec_sentinel_ok(d: Seq<u8>) -> bool {
    entry_id(d, spec_chunk_count(d)) == SENTINEL_CHUNK_ID as int
}

/// The three required chunks are present, and the base-graphs list is present
/// whenever the header declares base graphs.
#[verifier::opaque]
pub open spec fn spec_required_ok(d: Seq<u8>) -> bool {
    &&& spec_has_chunk(d, OID_FAN_CHUNK_ID as int)
    &&& spec_has_chunk(d, OID_LOOKUP_CHUNK_ID as int)
    &&& spec_has_chunk(d, COMMIT_DATA_CHUNK_ID as int)
    &&& (spec_base_graph_count(d) > 0 ==> spec_has_chunk(d, BASE_GRAPHS_LIST_CHUNK_ID as int))
}

/// The last fan-out entry: the file's commit count.
pub open spec fn spec_fan255(d: Seq<u8>) -> int {
    be_u32_at(d, spec_chunk_start(d, OID_FAN_CHUNK_ID as int) + 4 * 255)
}

/// The hash table and the commit data hold exactly `fan[255]` entries each.
#[verifier::opaque]
pub open spec fn spec_counts_ok(d: Seq<u8>) -> bool {
    &&& spec_chunk_size(d, OID_LOOKUP_CHUNK_ID as int) / 20 == spec_fan255(d)
    &&& spec_chunk_size(d, COMMIT_DATA_CHUNK_ID as int) / 36 == spec_fan255(d)
}

/// A byte string is a well-formed commit-graph file exactly when all the
/// structural checks pass.
#[verifier::opaque]
pub open spec fn spec_valid(d: Seq<u8>) -> bool {
    &&& spec_prefix_ok(d)
    &&& spec_offsets_ok(d)
    &&& spec_no_dup(d)
    &&& spec_chunks_ok(d)
    &&& spec_sentinel_ok(d)
    &&& spec_required_ok(d)
    &&& spec_counts_ok(d)
}

/// How a successfully parsed `File` reflects its bytes: every stored offset
/// and count is the one recorded in the chunk directory.
pub open spec fn spec_models(f: File, d: Seq<u8>) -> bool {
    &&& f.data@ == d
    &&& f.wf()
    &&& forall|b: int|
        0 <= b < 256 ==> #[trigger] f.fan@[b] as int == be_u32_at(
            d,
            spec_chunk_start(d, OID_FAN_CHUNK_ID as int) + 4 * b,
        )
    &&& f.commit_count as int == spec_fan255(d)
    &&& f.oid_lookup_offset as int == spec_chunk_start(d, OID_LOOKUP_CHUNK_ID as int)
    &&& f.commit_data_offset as int == spec_chunk_start(d, COMMIT_DATA_CHUNK_ID as int)
    &&& f.has_extra_edges == spec_has_chunk(d, EXTENDED_EDGES_LIST_CHUNK_ID as int)
    &&& (f.has_extra_edges ==> f.extra_edges_start as int == spec_chunk_start(
        d,
        EXTENDED_EDGES_LIST_CHUNK_ID as int,
    ) && f.extra_edges_end as int == spec_chunk_end(d, EXTENDED_EDGES_LIST_CHUNK_ID as int))
    &&& f.base_graph_count as int == spec_base_graph_count(d)
    &&& (spec_base_graph_count(d) > 0 ==> f.base_graphs_offset as int == spec_chunk_start(
        d,
        BASE_GRAPHS_LIST_CHUNK_ID as int,
    ))
}

/// Read the 256-entry fan-out table starting at `offset`.
fn read_fan(data: &Vec<u8>, offset: usize) -> (r: Vec<u32>)
    requires
        offset + 1024 <= data@.len(),
    ensures
        r@.len() == 256,
        forall|b: int| 0 <= b < 256 ==> #[trigger] r@[b] as int == be_u32_at(data@, offset + 4 * b),
{
    let n: usize = data.len();
    let mut fan: Vec<u32> = Vec::new();
    let mut b: usize = 0;
    while b < 256
        invariant
            0 <= b <= 256,
            n == data@.len(),
            offset + 1024 <= n,
            fan@.len() == b,
            forall|i: int| 0 <= i < b ==> #[trigger] fan@[i] as int == be_u32_at(data@, offset + 4 * i),
        decreases 256 - b,
    {
        let v: u32 = read_be_u32(data.as_slice(), offset + 4 * b);
        fan.push(v);
        b = b + 1;
    }
    fan
}

impl File {
    /// Parse one commit-graph file from its raw bytes, validating the header,
    /// the chunk directory and the chunk sizes.  Succeeds exactly on
    /// structurally valid files; on success every stored offset reflects the
    /// chunk directory.  Each error clause below states a necessary condition
    /// for its kind, and for a file with a single defect the kind is pinned:
    /// the defect's clause forces the matching error.
    #[verifier::rlimit(100)]
    #[verifier::spinoff_prover]
    pub fn try_from_bytes(data: Vec<u8>, path: String) -> (r: Result<File, Error>)
        ensures
            r is Ok <==> spec_valid(data@),
            r matches Ok(f) ==> spec_models(f, data@) && f.path@ == path@,
            r matches Err(Error::UnsupportedVersion(v)) ==> data@.len() >= MIN_FILE_SIZE
                && spec_signature_ok(data@) && v == data@[4] && v != 1,
            r matches Err(Error::UnsupportedHashVersion(v)) ==> data@.len() >= MIN_FILE_SIZE
                && spec_signature_ok(data@) && data@[4] == 1 && v == data@[5] && v != 1,
            r matches Err(Error::Corrupt(_)) ==> data@.len() < MIN_FILE_SIZE || !spec_signature_ok(
                data@,
            ) || spec_lookup_end(data@) > data@.len() || entry_off(data@, 0) < spec_lookup_end(
                data@,
            ) || !spec_sentinel_ok(data@),
            r matches Err(Error::DuplicateChunk(id)) ==> spec_recognized(id as int) && exists|
                j1: int,
                j2: int,
            |
                #![auto]
                0 <= j1 < j2 < spec_chunk_count(data@) && entry_id(data@, j1) == id as int
                    && entry_id(data@, j2) == id as int,
            r matches Err(Error::InvalidChunkSize(id, _)) ==> exists|k: int|
                #![auto]
                0 <= k < spec_chunk_count(data@) && entry_id(data@, k) == id as int && (entry_off(
                    data@,
                    k + 1,
                ) < entry_off(data@, k) || entry_off(data@, k + 1) >= data@.len()
                    || !spec_size_mult_ok_at(data@, k)),
            r matches Err(Error::BaseGraphMismatch { from_header, from_chunk }) ==> from_header
                as int == spec_base_graph_count(data@) && exists|k: int|
                #![auto]
                0 <= k < spec_chunk_count(data@) && entry_id(data@, k)
                    == BASE_GRAPHS_LIST_CHUNK_ID as int && from_chunk as int == (entry_off(
                    data@,
                    k + 1,
                ) - entry_off(data@, k)) / 20 && from_chunk as int != spec_base_graph_count(data@),
            r matches Err(Error::MissingChunk(id)) ==> !spec_has_chunk(data@, id as int) && (id
                == OID_FAN_CHUNK_ID || id == OID_LOOKUP_CHUNK_ID || id == COMMIT_DATA_CHUNK_ID || (
            id == BASE_GRAPHS_LIST_CHUNK_ID && spec_base_graph_count(data@) > 0)),
            r matches Err(Error::CommitCountMismatch {
                chunk1_id,
                chunk1_commits,
                chunk2_id,
                chunk2_commits,
            }) ==> !spec_counts_ok(data@) && chunk1_id == OID_FAN_CHUNK_ID && chunk1_commits
                as int == spec_fan255(data@) && ((chunk2_id == OID_LOOKUP_CHUNK_ID
                && chunk2_commits as int == spec_chunk_size(data@, OID_LOOKUP_CHUNK_ID as int)
                / 20) || (chunk2_id == COMMIT_DATA_CHUNK_ID && chunk2_commits as int
                == spec_chunk_size(data@, COMMIT_DATA_CHUNK_ID as int) / 36)),
        (spec_prefix_ok(data@) && !spec_offsets_ok(data@) && spec_no_dup(data@) && spec_chunks_ok(
            data@,
        ) && spec_sentinel_ok(data@) && spec_required_ok(data@)) ==> r matches Err(
            Error::InvalidChunkSize(_, _),
        ),
        (spec_prefix_ok(data@) && spec_offsets_ok(data@) && !spec_no_dup(data@) && spec_chunks_ok(
            data@,
        ) && spec_sentinel_ok(data@) && spec_required_ok(data@)) ==> r matches Err(
            Error::DuplicateChunk(_),
        ),
        (spec_prefix_ok(data@) && spec_offsets_ok(data@) && spec_no_dup(data@)
            && !spec_sizes_mult_ok(data@) && spec_base_counts_ok(data@) && spec_sentinel_ok(data@)
            && spec_required_ok(data@)) ==> r matches Err(Error::InvalidChunkSize(_, _)),
        (spec_prefix_ok(data@) && spec_offsets_ok(data@) && spec_no_dup(data@)
            && spec_sizes_mult_ok(data@) && !spec_base_counts_ok(data@) && spec_sentinel_ok(data@)
            && spec_required_ok(data@)) ==> r matches Err(Error::BaseGraphMismatch { .. }),
        (spec_prefix_ok(data@) && spec_offsets_ok(data@) && spec_no_dup(data@) && spec_chunks_ok(
            data@,
        ) && !spec_sentinel_ok(data@) && spec_required_ok(data@)) ==> r matches Err(
            Error::Corrupt(_),
        ),
        (spec_prefix_ok(data@) && spec_offsets_ok(data@) && spec_no_dup(data@) && spec_chunks_ok(
            data@,
        ) && spec_sentinel_ok(data@) && !spec_required_ok(data@)) ==> r matches Err(
            Error::MissingChunk(_),
        ),
        (spec_prefix_ok(data@) && spec_offsets_ok(data@) && spec_no_dup(data@) && spec_chunks_ok(
            data@,
        ) && spec_sentinel_ok(data@) && spec_required_ok(data@) && !spec_counts_ok(data@)) ==> r
            matches Err(Error::CommitCountMismatch { .. }),
        data@.len() < MIN_FILE_SIZE ==> r matches Err(Error::Corrupt(_)),
        (data@.len() >= MIN_FILE_SIZE && !spec_signature_ok(data@)) ==> r matches Err(
            Error::Corrupt(_),
        ),
        (data@.len() >= MIN_FILE_SIZE && spec_signature_ok(data@) && data@[4] != 1) ==> r
            == Err::<File, Error>(Error::UnsupportedVersion(data@[4])),
        (data@.len() >= MIN_FILE_SIZE && spec_signature_ok(data@) && data@[4] == 1 && data@[5]
            != 1) ==> r == Err::<File, Error>(Error::UnsupportedHashVersion(data@[5])),
        (data@.len() >= MIN_FILE_SIZE && spec_signature_ok(data@) && data@[4] == 1 && data@[5]
            == 1 && spec_lookup_end(data@) > data@.len()) ==> r matches Err(Error::Corrupt(_)),
        (data@.len() >= MIN_FILE_SIZE && spec_signature_ok(data@) && data@[4] == 1 && data@[5]
            == 1 && spec_lookup_end(data@) <= data@.len() && entry_off(data@, 0)
            < spec_lookup_end(data@)) ==> r matches Err(Error::Corrupt(_)),
            !(r matches Err(Error::Io(_))),
    {
        let ghost d: Seq<u8> = data@;
        let data_size: usize = data.len();
        if data_size < MIN_FILE_SIZE {
            proof {
                assert(!spec_prefix_ok(d)) by {
                    reveal(spec_prefix_ok);
                }
                assert(!spec_valid(d)) by {
                    reveal(spec_valid);
                }
            }
            return Err(Error::Corrupt("commit-graph file too small even for an empty graph".to_owned()));
        }
        if !(data[0] == 0x43 && data[1] == 0x47 && data[2] == 0x50 && data[3] == 0x48) {
            proof {
                assert(!spec_prefix_ok(d)) by {
                    reveal(spec_prefix_ok);
                }
                assert(!spec_valid(d)) by {
                    reveal(spec_valid);
                }
            }
            return Err(Error::Corrupt("commit-graph file does not start with expected signature".to_owned()));
        }
        let version: u8 = data[4];
        if version != 1 {
            proof {
                assert(!spec_prefix_ok(d)) by {
                    reveal(spec_prefix_ok);
                }
                assert(!spec_valid(d)) by {
                    reveal(spec_valid);
                }
            }
            return Err(Error::UnsupportedVersion(version));
        }
        let hash_version: u8 = data[5];
        if hash_version != 1 {
            proof {
                assert(!spec_prefix_ok(d)) by {
                    reveal(spec_prefix_ok);
                }
                assert(!spec_valid(d)) by {
                    reveal(spec_valid);
                }
            }
            return Err(Error::UnsupportedHashVersion(hash_version));
        }
        let chunk_count: u8 = data[6];
        let base_graph_count: u8 = data[7];

        let chunk_lookup_end: usize = HEADER_LEN + (chunk_count as usize + 1) * CHUNK_LOOKUP_SIZE;
        if chunk_lookup_end > data_size {
            proof {
                assert(!spec_prefix_ok(d)) by {
                    reveal(spec_prefix_ok);
                }
                assert(!spec_valid(d)) by {
                    reveal(spec_valid);
                }
            }
            return Err(Error::Corrupt("commit-graph file is too small to hold its chunks".to_owned()));
        }
        let dir: ChunkDir = match scan_chunk_directory(
            &data,
            chunk_count,
            base_graph_count,
            chunk_lookup_end,
        ) {
            Ok(c) => c,
            Err(e) => {
                return Err(e);
            },
        };
        proof {
            assert(entry_off(d, 0) >= spec_lookup_end(d) && spec_lookup_end(d) <= d.len()) by {
                reveal(spec_prefix_ok);
            }
        }
        let ghost fan_j: int = dir.fan_j@;
        let ghost oidl_j: int = dir.oidl_j@;
        let ghost cdat_j: int = dir.cdat_j@;
        let fan_offset: usize = dir.fan_offset;
        let oid_lookup_offset: usize = dir.oid_lookup_offset;
        let commit_data_offset: usize = dir.commit_data_offset;
        let oid_lookup_count: u64 = dir.oid_lookup_count;
        let commit_data_count: u64 = dir.commit_data_count;
        proof {
            assert(fan_offset + 1024 <= d.len());
            lemma_unique_chunk_index(d, OID_FAN_CHUNK_ID as int, fan_j);
            lemma_unique_chunk_index(d, OID_LOOKUP_CHUNK_ID as int, oidl_j);
            lemma_unique_chunk_index(d, COMMIT_DATA_CHUNK_ID as int, cdat_j);
            if dir.base_graphs_list_offset is Some {
                lemma_unique_chunk_index(d, BASE_GRAPHS_LIST_CHUNK_ID as int, dir.base_j@);
            }
            if dir.extra_edges_range is Some {
                lemma_unique_chunk_index(d, EXTENDED_EDGES_LIST_CHUNK_ID as int, dir.edge_j@);
            }
        }
        let fan: Vec<u32> = read_fan(&data, fan_offset);
        let fan255: u32 = fan[255];
        if oid_lookup_count != fan255 as u64 {
            proof {
                assert(spec_fan255(d) == fan255 as int);
                assert(!spec_counts_ok(d)) by {
                    reveal(spec_counts_ok);
                }
                assert(!spec_valid(d)) by {
                    reveal(spec_valid);
                }
            }
            return Err(Error::CommitCountMismatch {
                chunk1_id: OID_FAN_CHUNK_ID,
                chunk1_commits: fan255 as u64,
                chunk2_id: OID_LOOKUP_CHUNK_ID,
                chunk2_commits: oid_lookup_count,
            });
        }
        if commit_data_count != fan255 as u64 {
            proof {
                assert(spec_fan255(d) == fan255 as int);
                assert(!spec_counts_ok(d)) by {
                    reveal(spec_counts_ok);
                }
                assert(!spec_valid(d)) by {
                    reveal(spec_valid);
                }
            }
            return Err(Error::CommitCountMismatch {
                chunk1_id: OID_FAN_CHUNK_ID,
                chunk1_commits: fan255 as u64,
                chunk2_id: COMMIT_DATA_CHUNK_ID,
                chunk2_commits: commit_data_count,
            });
        }
        proof {
            vstd::arithmetic::div_mod::lemma_fundamental_div_mod(
                entry_off(d, oidl_j + 1) - entry_off(d, oidl_j),
                20,
            );
            vstd::arithmetic::div_mod::lemma_fundamental_div_mod(
                entry_off(d, cdat_j + 1) - entry_off(d, cdat_j),
                36,
            );
            assert(oid_lookup_offset + 20 * (fan255 as int) <= d.len());
            assert(commit_data_offset + 36 * (fan255 as int) <= d.len());
        }
        let (has_extra_edges, extra_edges_start, extra_edges_end): (bool, usize, usize) =
            match dir.extra_edges_range {
            Some((s, e)) => (true, s, e),
            None => (false, 0, 0),
        };
        let base_graphs_offset: usize = match dir.base_graphs_list_offset {
            Some(o) => o,
            None => 0,
        };
        proof {
            let ghost base_j: int = dir.base_j@;
            if dir.base_graphs_list_offset is Some {
                vstd::arithmetic::div_mod::lemma_fundamental_div_mod(
                    entry_off(d, base_j + 1) - entry_off(d, base_j),
                    20,
                );
                assert(base_graphs_offset + 20 * (base_graph_count as int) <= d.len());
            }
            assert(spec_counts_ok(d)) by {
                reveal(spec_counts_ok);
            }
            assert(spec_valid(d)) by {
                reveal(spec_valid);
            }
        }
        let f = File {
            data,
            path,
            fan,
            commit_count: fan255,
            oid_lookup_offset,
            commit_data_offset,
            has_extra_edges,
            extra_edges_start,
            extra_edges_end,
            base_graph_count,
            base_graphs_offset,
        };
        proof {
            assert(f.wf());
            assert(f.commit_count as int == spec_fan255(d));
            assert(f.has_extra_edges == spec_has_chunk(d, EXTENDED_EDGES_LIST_CHUNK_ID as int));
            assert(spec_models(f, d));
        }
        Ok(f)
    }
}

/// What the chunk-directory walk found: where each recognized chunk lies, with
/// the directory index of each (kept as ghost data for the proofs).
struct ChunkDir {
    base_graphs_list_offset: Option<usize>,
    commit_data_offset: usize,
    commit_data_count: u64,
    extra_edges_range: Option<(usize, usize)>,
    fan_offset: usize,
    oid_lookup_offset: usize,
    oid_lookup_count: u64,
    fan_j: Ghost<int>,
    oidl_j: Ghost<int>,
    cdat_j: Ghost<int>,
    edge_j: Ghost<int>,
    base_j: Ghost<int>,
}

/// How a successful directory walk reflects the directory entries.
spec fn chunk_dir_models(c: ChunkDir, d: Seq<u8>) -> bool {
    &&& 0 <= c.fan_j@ < spec_chunk_count(d)
    &&& entry_id(d, c.fan_j@) == OID_FAN_CHUNK_ID as int
    &&& c.fan_offset as int == entry_off(d, c.fan_j@)
    &&& entry_off(d, c.fan_j@ + 1) - entry_off(d, c.fan_j@) == 1024
    &&& entry_off(d, c.fan_j@) <= entry_off(d, c.fan_j@ + 1) && entry_off(d, c.fan_j@ + 1)
        < d.len()
    &&& 0 <= c.oidl_j@ < spec_chunk_count(d)
    &&& entry_id(d, c.oidl_j@) == OID_LOOKUP_CHUNK_ID as int
    &&& c.oid_lookup_offset as int == entry_off(d, c.oidl_j@)
    &&& c.oid_lookup_count as int == (entry_off(d, c.oidl_j@ + 1) - entry_off(d, c.oidl_j@)) / 20
    &&& (entry_off(d, c.oidl_j@ + 1) - entry_off(d, c.oidl_j@)) % 20 == 0
    &&& entry_off(d, c.oidl_j@) <= entry_off(d, c.oidl_j@ + 1) && entry_off(d, c.oidl_j@ + 1)
        < d.len()
    &&& 0 <= c.cdat_j@ < spec_chunk_count(d)
    &&& entry_id(d, c.cdat_j@) == COMMIT_DATA_CHUNK_ID as int
    &&& c.commit_data_offset as int == entry_off(d, c.cdat_j@)
    &&& c.commit_data_count as int == (entry_off(d, c.cdat_j@ + 1) - entry_off(d, c.cdat_j@)) / 36
    &&& (entry_off(d, c.cdat_j@ + 1) - entry_off(d, c.cdat_j@)) % 36 == 0
    &&& entry_off(d, c.cdat_j@) <= entry_off(d, c.cdat_j@ + 1) && entry_off(d, c.cdat_j@ + 1)
        < d.len()
    &&& (c.extra_edges_range matches Some(se) ==> 0 <= c.edge_j@ < spec_chunk_count(d)
        && entry_id(d, c.edge_j@) == EXTENDED_EDGES_LIST_CHUNK_ID as int && se.0 as int
        == entry_off(d, c.edge_j@) && se.1 as int == entry_off(d, c.edge_j@ + 1) && se.0 <= se.1
        && se.1 < d.len())
    &&& (c.extra_edges_range is None ==> !spec_has_chunk(d, EXTENDED_EDGES_LIST_CHUNK_ID as int))
    &&& (c.base_graphs_list_offset matches Some(o) ==> 0 <= c.base_j@ < spec_chunk_count(d)
        && entry_id(d, c.base_j@) == BASE_GRAPHS_LIST_CHUNK_ID as int && o as int == entry_off(
        d,
        c.base_j@,
    ) && (entry_off(d, c.base_j@ + 1) - entry_off(d, c.base_j@)) % 20 == 0 && (entry_off(
        d,
        c.base_j@ + 1,
    ) - entry_off(d, c.base_j@)) / 20 == spec_base_graph_count(d) && entry_off(d, c.base_j@)
        <= entry_off(d, c.base_j@ + 1) && entry_off(d, c.base_j@ + 1) < d.len())
    &&& (c.base_graphs_list_offset is None ==> spec_base_graph_count(d) == 0 && !spec_has_chunk(
        d,
        BASE_GRAPHS_LIST_CHUNK_ID as int,
    ))
}

/// Walk the chunk directory once, tracking the previous entry, recognizing
/// each chunk exactly once and validating offsets and sizes along the way.
#[verifier::rlimit(100)]
#[verifier::spinoff_prover]
fn scan_chunk_directory(
    data: &Vec<u8>,
    chunk_count: u8,
    base_graph_count: u8,
    chunk_lookup_end: usize,
) -> (r: Result<ChunkDir, Error>)
    requires
        data@.len() >= MIN_FILE_SIZE,
        spec_signature_ok(data@),
        data@[4] == 1u8,
        data@[5] == 1u8,
        chunk_count as int == spec_chunk_count(data@),
        base_graph_count as int == spec_base_graph_count(data@),
        chunk_lookup_end == spec_lookup_end(data@),
        chunk_lookup_end <= data@.len(),
    ensures
        r matches Ok(c) ==> spec_prefix_ok(data@) && spec_offsets_ok(data@) && spec_no_dup(data@)
            && spec_chunks_ok(data@) && spec_sentinel_ok(data@) && spec_required_ok(data@)
            && chunk_dir_models(c, data@),
        r is Err ==> !spec_valid(data@),
        r is Err ==> !(spec_prefix_ok(data@) && spec_offsets_ok(data@) && spec_no_dup(data@)
            && spec_chunks_ok(data@) && spec_sentinel_ok(data@) && spec_required_ok(data@)),
        entry_off(data@, 0) < spec_lookup_end(data@) ==> r matches Err(Error::Corrupt(_)),
        (spec_prefix_ok(data@) && !spec_offsets_ok(data@) && spec_no_dup(data@) && spec_chunks_ok(
            data@,
        ) && spec_sentinel_ok(data@) && spec_required_ok(data@)) ==> r matches Err(
            Error::InvalidChunkSize(_, _),
        ),
        (spec_prefix_ok(data@) && spec_offsets_ok(data@) && !spec_no_dup(data@) && spec_chunks_ok(
            data@,
        ) && spec_sentinel_ok(data@) && spec_required_ok(data@)) ==> r matches Err(
            Error::DuplicateChunk(_),
        ),
        (spec_prefix_ok(data@) && spec_offsets_ok(data@) && spec_no_dup(data@)
            && !spec_sizes_mult_ok(data@) && spec_base_counts_ok(data@) && spec_sentinel_ok(data@)
            && spec_required_ok(data@)) ==> r matches Err(Error::InvalidChunkSize(_, _)),
        (spec_prefix_ok(data@) && spec_offsets_ok(data@) && spec_no_dup(data@)
            && spec_sizes_mult_ok(data@) && !spec_base_counts_ok(data@) && spec_sentinel_ok(data@)
            && spec_required_ok(data@)) ==> r matches Err(Error::BaseGraphMismatch { .. }),
        (spec_prefix_ok(data@) && spec_offsets_ok(data@) && spec_no_dup(data@) && spec_chunks_ok(
            data@,
        ) && !spec_sentinel_ok(data@) && spec_required_ok(data@)) ==> r matches Err(
            Error::Corrupt(_),
        ),
        (spec_prefix_ok(data@) && spec_offsets_ok(data@) && spec_no_dup(data@) && spec_chunks_ok(
            data@,
        ) && spec_sentinel_ok(data@) && !spec_required_ok(data@)) ==> r matches Err(
            Error::MissingChunk(_),
        ),
        r matches Err(Error::Corrupt(_)) ==> entry_off(data@, 0) < spec_lookup_end(data@)
            || !spec_sentinel_ok(data@),
        r matches Err(Error::DuplicateChunk(id)) ==> spec_recognized(id as int) && exists|
            j1: int,
            j2: int,
        |
            #![auto]
            0 <= j1 < j2 < spec_chunk_count(data@) && entry_id(data@, j1) == id as int && entry_id(
                data@,
                j2,
            ) == id as int,
        r matches Err(Error::InvalidChunkSize(id, _)) ==> exists|k: int|
            #![auto]
            0 <= k < spec_chunk_count(data@) && entry_id(data@, k) == id as int && (entry_off(
                data@,
                k + 1,
            ) < entry_off(data@, k) || entry_off(data@, k + 1) >= data@.len()
                || !spec_size_mult_ok_at(data@, k)),
        r matches Err(Error::BaseGraphMismatch { from_header, from_chunk }) ==> from_header as int
            == spec_base_graph_count(data@) && exists|k: int|
            #![auto]
            0 <= k < spec_chunk_count(data@) && entry_id(data@, k)
                == BASE_GRAPHS_LIST_CHUNK_ID as int && from_chunk as int == (entry_off(data@, k + 1)
                - entry_off(data@, k)) / 20 && from_chunk as int != spec_base_graph_count(data@),
        r matches Err(Error::MissingChunk(id)) ==> !spec_has_chunk(data@, id as int) && (id
            == OID_FAN_CHUNK_ID || id == OID_LOOKUP_CHUNK_ID || id == COMMIT_DATA_CHUNK_ID || (id
            == BASE_GRAPHS_LIST_CHUNK_ID && spec_base_graph_count(data@) > 0)),
        !(r matches Err(Error::Io(_))),
        !(r matches Err(Error::CommitCountMismatch { .. })),
        !(r matches Err(Error::UnsupportedVersion(_))),
        !(r matches Err(Error::UnsupportedHashVersion(_))),
{
    let ghost d: Seq<u8> = data@;
    let data_size: usize = data.len();
    let mut base_graphs_list_offset: Option<usize> = None;
    let mut commit_data_offset: Option<usize> = None;
    let mut commit_data_count: u64 = 0;
    let mut extra_edges_range: Option<(usize, usize)> = None;
    let mut fan_offset: Option<usize> = None;
    let mut oid_lookup_offset: Option<usize> = None;
    let mut oid_lookup_count: u64 = 0;
    let ghost mut base_j: int = 0;
    let ghost mut cdat_j: int = 0;
    let ghost mut edge_j: int = 0;
    let ghost mut fan_j: int = 0;
    let ghost mut oidl_j: int = 0;

    let mut chunk_id: u32 = read_be_u32(data.as_slice(), HEADER_LEN);
    let mut chunk_offset: u64 = read_be_u64(data.as_slice(), HEADER_LEN + 4);
    if chunk_offset < chunk_lookup_end as u64 {
        proof {
            assert(!spec_prefix_ok(d)) by {
                reveal(spec_prefix_ok);
            }
            assert(!spec_valid(d)) by {
                reveal(spec_valid);
            }
        }
        return Err(Error::Corrupt("first commit-graph chunk offset lies inside the chunk directory".to_owned()));
    }
    let mut k: usize = 0;
    while k < chunk_count as usize
        invariant
            d == data@,
            data_size == d.len(),
            d.len() >= MIN_FILE_SIZE,
            chunk_count as int == spec_chunk_count(d),
            base_graph_count as int == spec_base_graph_count(d),
            chunk_lookup_end == spec_lookup_end(d),
            chunk_lookup_end <= data_size,
            spec_signature_ok(d),
            d[4] == 1u8,
            d[5] == 1u8,
            entry_off(d, 0) >= spec_lookup_end(d),
            0 <= k <= chunk_count as usize,
            chunk_id as int == entry_id(d, k as int),
            chunk_offset as int == entry_off(d, k as int),
            forall|j: int|
                0 <= j < k ==> #[trigger] entry_off(d, j) <= entry_off(d, j + 1) && entry_off(
                    d,
                    j + 1,
                ) < d.len(),
            forall|j: int|
                0 <= j < k ==> #[trigger] spec_size_mult_ok_at(d, j) && spec_base_count_ok_at(
                    d,
                    j,
                ),
            forall|j1: int, j2: int|
                #![trigger entry_id(d, j1), entry_id(d, j2)]
                0 <= j1 < j2 < k && spec_recognized(entry_id(d, j1)) ==> entry_id(d, j1)
                    != entry_id(d, j2),
            fan_offset is None ==> forall|j: int|
                0 <= j < k ==> #[trigger] entry_id(d, j) != OID_FAN_CHUNK_ID as int,
            fan_offset matches Some(o) ==> 0 <= fan_j < k && entry_id(d, fan_j)
                == OID_FAN_CHUNK_ID as int && o as int == entry_off(d, fan_j),
            oid_lookup_offset is None ==> forall|j: int|
                0 <= j < k ==> #[trigger] entry_id(d, j) != OID_LOOKUP_CHUNK_ID as int,
            oid_lookup_offset matches Some(o) ==> 0 <= oidl_j < k && entry_id(d, oidl_j)
                == OID_LOOKUP_CHUNK_ID as int && o as int == entry_off(d, oidl_j)
                && oid_lookup_count as int == (entry_off(d, oidl_j + 1) - entry_off(d, oidl_j))
                / 20,
            commit_data_offset is None ==> forall|j: int|
                0 <= j < k ==> #[trigger] entry_id(d, j) != COMMIT_DATA_CHUNK_ID as int,
            commit_data_offset matches Some(o) ==> 0 <= cdat_j < k && entry_id(d, cdat_j)
                == COMMIT_DATA_CHUNK_ID as int && o as int == entry_off(d, cdat_j)
                && commit_data_count as int == (entry_off(d, cdat_j + 1) - entry_off(d, cdat_j))
                / 36,
            extra_edges_range is None ==> forall|j: int|
                0 <= j < k ==> #[trigger] entry_id(d, j) != EXTENDED_EDGES_LIST_CHUNK_ID as int,
            extra_edges_range matches Some(se) ==> 0 <= edge_j < k && entry_id(d, edge_j)
                == EXTENDED_EDGES_LIST_CHUNK_ID as int && se.0 as int == entry_off(d, edge_j)
                && se.1 as int == entry_off(d, edge_j + 1) && se.0 <= se.1,
            base_graphs_list_offset is None ==> forall|j: int|
                0 <= j < k ==> #[trigger] entry_id(d, j) != BASE_GRAPHS_LIST_CHUNK_ID as int,
            base_graphs_list_offset matches Some(o) ==> 0 <= base_j < k && entry_id(d, base_j)
                == BASE_GRAPHS_LIST_CHUNK_ID as int && o as int == entry_off(d, base_j),
        decreases chunk_count as usize - k,
    {
        let entry_base: usize = HEADER_LEN + (k + 1) * CHUNK_LOOKUP_SIZE;
        let next_chunk_id: u32 = read_be_u32(data.as_slice(), entry_base);
        let next_chunk_offset: u64 = read_be_u64(data.as_slice(), entry_base + 4);
        if next_chunk_offset < chunk_offset {
            proof {
                assert(!(entry_off(d, k as int) <= entry_off(d, k as int + 1)));
                lemma_break_offsets(d, k as int);
            }
            return Err(Error::InvalidChunkSize(chunk_id, "size is negative".to_owned()));
        }
        let chunk_size: u64 = next_chunk_offset - chunk_offset;
        if next_chunk_offset >= data_size as u64 {
            proof {
                assert(entry_off(d, k as int + 1) >= d.len());
                lemma_break_offsets(d, k as int);
            }
            return Err(Error::InvalidChunkSize(chunk_id, "chunk extends beyond end of file".to_owned()));
        }
        if chunk_id == BASE_GRAPHS_LIST_CHUNK_ID {
            if base_graphs_list_offset.is_some() {
                proof {
                    assert(entry_id(d, base_j) == chunk_id as int && entry_id(d, k as int)
                        == chunk_id as int && 0 <= base_j < k as int);
                    lemma_break_dup(d, base_j, k as int);
                }
                return Err(Error::DuplicateChunk(chunk_id));
            }
            if chunk_size % 20 != 0 {
                proof {
                    assert(!spec_size_mult_ok_at(d, k as int)) by {
                        reveal(spec_size_mult_ok_at);
                    }
                    lemma_break_mult(d, k as int);
                }
                return Err(Error::InvalidChunkSize(chunk_id, "chunk size is not a multiple of the hash size".to_owned()));
            }
            let chunk_base_count: u64 = chunk_size / 20;
            if chunk_base_count != base_graph_count as u64 {
                proof {
                    assert(!spec_base_count_ok_at(d, k as int)) by {
                        reveal(spec_base_count_ok_at);
                    }
                    lemma_break_base_count(d, k as int);
                }
                return Err(Error::BaseGraphMismatch {
                    from_header: base_graph_count,
                    from_chunk: chunk_base_count,
                });
            }
            base_graphs_list_offset = Some(chunk_offset as usize);
            proof {
                base_j = k as int;
            }
        } else if chunk_id == COMMIT_DATA_CHUNK_ID {
            if commit_data_offset.is_some() {
                proof {
                    assert(entry_id(d, cdat_j) == chunk_id as int && entry_id(d, k as int)
                        == chunk_id as int && 0 <= cdat_j < k as int);
                    lemma_break_dup(d, cdat_j, k as int);
                }
                return Err(Error::DuplicateChunk(chunk_id));
            }
            if chunk_size % 36 != 0 {
                proof {
                    assert(!spec_size_mult_ok_at(d, k as int)) by {
                        reveal(spec_size_mult_ok_at);
                    }
                    lemma_break_mult(d, k as int);
                }
                return Err(Error::InvalidChunkSize(chunk_id, "chunk size is not a multiple of the record size".to_owned()));
            }
            commit_data_offset = Some(chunk_offset as usize);
            commit_data_count = chunk_size / 36;
            proof {
                cdat_j = k as int;
            }
        } else if chunk_id == EXTENDED_EDGES_LIST_CHUNK_ID {
            if extra_edges_range.is_some() {
                proof {
                    assert(entry_id(d, edge_j) == chunk_id as int && entry_id(d, k as int)
                        == chunk_id as int && 0 <= edge_j < k as int);
                    lemma_break_dup(d, edge_j, k as int);
                }
                return Err(Error::DuplicateChunk(chunk_id));
            }
            extra_edges_range = Some((chunk_offset as usize, next_chunk_offset as usize));
            proof {
                edge_j = k as int;
            }
        } else if chunk_id == OID_FAN_CHUNK_ID {
            if fan_offset.is_some() {
                proof {
                    assert(entry_id(d, fan_j) == chunk_id as int && entry_id(d, k as int)
                        == chunk_id as int && 0 <= fan_j < k as int);
                    lemma_break_dup(d, fan_j, k as int);
                }
                return Err(Error::DuplicateChunk(chunk_id));
            }
            if chunk_size != 1024 {
                proof {
                    assert(!spec_size_mult_ok_at(d, k as int)) by {
                        reveal(spec_size_mult_ok_at);
                    }
                    lemma_break_mult(d, k as int);
                }
                return Err(Error::InvalidChunkSize(chunk_id, "unexpected fan-out chunk length".to_owned()));
            }
            fan_offset = Some(chunk_offset as usize);
            proof {
                fan_j = k as int;
            }
        } else if chunk_id == OID_LOOKUP_CHUNK_ID {
            if oid_lookup_offset.is_some() {
                proof {
                    assert(entry_id(d, oidl_j) == chunk_id as int && entry_id(d, k as int)
                        == chunk_id as int && 0 <= oidl_j < k as int);
                    lemma_break_dup(d, oidl_j, k as int);
                }
                return Err(Error::DuplicateChunk(chunk_id));
            }
            if chunk_size % 20 != 0 {
                proof {
                    assert(!spec_size_mult_ok_at(d, k as int)) by {
                        reveal(spec_size_mult_ok_at);
                    }
                    lemma_break_mult(d, k as int);
                }
                return Err(Error::InvalidChunkSize(chunk_id, "chunk size is not a multiple of the hash size".to_owned()));
            }
            oid_lookup_offset = Some(chunk_offset as usize);
            oid_lookup_count = chunk_size / 20;
            proof {
                oidl_j = k as int;
            }
        }
        proof {
            assert(spec_size_mult_ok_at(d, k as int)) by {
                reveal(spec_size_mult_ok_at);
            }
            assert(spec_base_count_ok_at(d, k as int)) by {
                reveal(spec_base_count_ok_at);
            }
            assert forall|j: int|
                0 <= j < k as int + 1 implies #[trigger] spec_size_mult_ok_at(d, j)
                    && spec_base_count_ok_at(d, j) by {}
        }
        chunk_id = next_chunk_id;
        chunk_offset = next_chunk_offset;
        k = k + 1;
    }
    if chunk_id != SENTINEL_CHUNK_ID {
        proof {
            lemma_break_sentinel(d);
        }
        return Err(Error::Corrupt("commit-graph file has an invalid last chunk id".to_owned()));
    }
    let fan_offset: usize = match fan_offset {
        Some(o) => o,
        None => {
            proof {
                assert(!spec_has_chunk(d, OID_FAN_CHUNK_ID as int));
                lemma_break_missing(d);
            }
            return Err(Error::MissingChunk(OID_FAN_CHUNK_ID));
        },
    };
    let oid_lookup_offset: usize = match oid_lookup_offset {
        Some(o) => o,
        None => {
            proof {
                assert(!spec_has_chunk(d, OID_LOOKUP_CHUNK_ID as int));
                lemma_break_missing(d);
            }
            return Err(Error::MissingChunk(OID_LOOKUP_CHUNK_ID));
        },
    };
    let commit_data_offset: usize = match commit_data_offset {
        Some(o) => o,
        None => {
            proof {
                assert(!spec_has_chunk(d, COMMIT_DATA_CHUNK_ID as int));
                lemma_break_missing(d);
            }
            return Err(Error::MissingChunk(COMMIT_DATA_CHUNK_ID));
        },
    };
    if base_graph_count > 0 && base_graphs_list_offset.is_none() {
        proof {
            assert(!spec_has_chunk(d, BASE_GRAPHS_LIST_CHUNK_ID as int));
            lemma_break_missing(d);
        }
        return Err(Error::MissingChunk(BASE_GRAPHS_LIST_CHUNK_ID));
    }
    let c = ChunkDir {
        base_graphs_list_offset,
        commit_data_offset,
        commit_data_count,
        extra_edges_range,
        fan_offset,
        oid_lookup_offset,
        oid_lookup_count,
        fan_j: Ghost(fan_j),
        oidl_j: Ghost(oidl_j),
        cdat_j: Ghost(cdat_j),
        edge_j: Ghost(edge_j),
        base_j: Ghost(base_j),
    };
    proof {
        assert(spec_prefix_ok(d)) by {
            reveal(spec_prefix_ok);
        }
        assert(spec_offsets_ok(d)) by {
            reveal(spec_offsets_ok);
        }
        assert(spec_no_dup(d)) by {
            reveal(spec_no_dup);
        }
        assert(spec_sizes_mult_ok(d)) by {
            reveal(spec_sizes_mult_ok);
        }
        assert(spec_base_counts_ok(d)) by {
            reveal(spec_base_counts_ok);
            assert forall|k2: int|
                0 <= k2 < spec_chunk_count(d) implies spec_base_count_ok_at(d, k2) by {
                assert(spec_size_mult_ok_at(d, k2) && spec_base_count_ok_at(d, k2));
            }
        }
        assert(spec_sentinel_ok(d)) by {
            reveal(spec_sentinel_ok);
        }
        assert(spec_required_ok(d)) by {
            reveal(spec_required_ok);
            assert(entry_id(d, fan_j) == OID_FAN_CHUNK_ID as int);
            assert(entry_id(d, oidl_j) == OID_LOOKUP_CHUNK_ID as int);
            assert(entry_id(d, cdat_j) == COMMIT_DATA_CHUNK_ID as int);
        }
        if c.base_graphs_list_offset is None {
            assert(!spec_has_chunk(d, BASE_GRAPHS_LIST_CHUNK_ID as int));
        }
        if c.extra_edges_range is None {
            assert(!spec_has_chunk(d, EXTENDED_EDGES_LIST_CHUNK_ID as int));
        }
        lemma_chunk_dir_models(d, c);
    }
    Ok(c)
}

/// One parent slot of a commit-data record.
#[derive(Clone, Copy, Debug, PartialEq, Eq)]
pub enum ParentEdge {
    /// No parent in this slot.
    NoParent,
    /// The parent lies at this global position of the composed chain.
    InGraph(u32),
    /// Parents two and up continue at this index of the extra-edges list.
    ExtraEdgeIndex(u32),
}

/// How a raw 32-bit edge word decodes: the sentinel means no parent, the top
/// bit redirects into the extra-edges list, anything else is a position.
pub open spec fn spec_edge(w: int) -> ParentEdge {
    if w == NO_PARENT as int {
        ParentEdge::NoParent
    } else if w >= EDGE_HIGH_BIT as int {
        ParentEdge::ExtraEdgeIndex((w - EDGE_HIGH_BIT as int) as u32)
    } else {
        ParentEdge::InGraph(w as u32)
    }
}

/// An owned copy of one 36-byte commit-data record.
#[derive(Clone, Debug, PartialEq, Eq)]
pub struct Commit {
    /// The local position this record was read from.
    pub pos: u32,
    /// The commit's root tree hash.
    pub root_tree_id: Vec<u8>,
    /// The first parent slot.
    pub parent1: ParentEdge,
    /// The second parent slot.
    pub parent2: ParentEdge,
    /// The 30-bit generation number.
    pub generation: u32,
    /// The 34-bit committer timestamp.
    pub committer_timestamp: u64,
}

impl Commit {
    pub fn parent1(&self) -> (r: ParentEdge)
        ensures
            r == self.parent1,
    {
        self.parent1
    }

    pub fn parent2(&self) -> (r: ParentEdge)
        ensures
            r == self.parent2,
    {
        self.parent2
    }

    pub fn generation(&self) -> (r: u32)
        ensures
            r == self.generation,
    {
        self.generation
    }

    pub fn committer_timestamp(&self) -> (r: u64)
        ensures
            r == self.committer_timestamp,
    {
        self.committer_timestamp
    }

    pub fn root_tree_id(&self) -> (r: &Vec<u8>)
        ensures
            r@ == self.root_tree_id@,
    {
        &self.root_tree_id
    }

    pub fn position(&self) -> (r: u32)
        ensures
            r == self.pos,
    {
        self.pos
    }
}

impl File {
    /// The run of extra-edge words that starts at word index `k`: up to and
    /// including the first word with the top bit set, truncated at the end of
    /// the chunk when the terminator is missing.
    pub open spec fn extra_run_spec(self, k: int) -> Seq<u32>
        decreases self.num_extra_words() - k,
    {
        if k < 0 || k >= self.num_extra_words() {
            Seq::empty()
        } else if self.extra_word(k) >= EDGE_HIGH_BIT as int {
            seq![self.extra_word(k) as u32]
        } else {
            seq![self.extra_word(k) as u32] + self.extra_run_spec(k + 1)
        }
    }

    /// The sequence of parent positions of local position `p`: the first
    /// slot, then the second, walking the extra-edges run on overflow, each
    /// word masked to its low 31 bits.
    pub open spec fn parents_spec(self, p: int) -> Seq<u32> {
        let w1 = self.parent1_word(p);
        let w2 = self.parent2_word(p);
        if w1 == NO_PARENT as int {
            Seq::empty()
        } else {
            let first = seq![(w1 % 0x8000_0000) as u32];
            if w2 == NO_PARENT as int {
                first
            } else if w2 >= EDGE_HIGH_BIT as int {
                first + self.extra_run_spec(w2 - EDGE_HIGH_BIT as int).map_values(
                    |w: u32| ((w as int) % 0x8000_0000) as u32,
                )
            } else {
                first + seq![w2 as u32]
            }
        }
    }

    /// Every parent edge respects generation order: a parent that lies within
    /// this file and has a computed (non-zero) generation has a strictly
    /// smaller generation than its child, whenever the child's is computed too.
    pub open spec fn spec_generations_ok(self) -> bool {
        forall|c: int, j: int|
            #![trigger self.parents_spec(c)[j]]
            0 <= c < self.commit_count && 0 <= j < self.parents_spec(c).len() ==> ((
            self.parents_spec(c)[j] as int) < self.commit_count ==> ((self.generation_spec(
                self.parents_spec(c)[j] as int,
            ) > 0 && self.generation_spec(c) > 0) ==> self.generation_spec(
                self.parents_spec(c)[j] as int,
            ) < self.generation_spec(c)))
    }

    /// `fan[255]`: how many commits this file holds.
    pub fn len(&self) -> (r: u32)
        requires
            self.wf(),
        ensures
            r == self.commit_count,
            r == self.fan@[255],
    {
        self.commit_count
    }

    /// The hash at local position `pos`, as an owned 20-byte vector.
    pub fn id_at(&self, pos: u32) -> (r: Vec<u8>)
        requires
            self.wf(),
            pos < self.commit_count,
        ensures
            r@ == self.id_at_spec(pos as int),
            r@.len() == 20,
    {
        let n: usize = self.data.len();
        copy_range(self.data.as_slice(), self.oid_lookup_offset + 20 * (pos as usize), 20)
    }

    /// The file's own trailing checksum hash: its identity in a chain.
    pub fn checksum(&self) -> (r: Vec<u8>)
        requires
            self.wf(),
        ensures
            r@ == self.checksum_spec(),
            r@.len() == 20,
    {
        let n: usize = self.data.len();
        copy_range(self.data.as_slice(), n - 20, 20)
    }

    /// The hashes of the declared base graphs, bottom first.
    pub fn iter_base_graphs(&self) -> (r: Vec<Vec<u8>>)
        requires
            self.wf(),
        ensures
            r@.len() == self.base_graph_count,
            forall|j: int|
                0 <= j < self.base_graph_count ==> #[trigger] r@[j]@ == self.base_graph_id_spec(j),
    {
        let mut out: Vec<Vec<u8>> = Vec::new();
        let mut j: usize = 0;
        while j < self.base_graph_count as usize
            invariant
                self.wf(),
                0 <= j <= self.base_graph_count as usize,
                out@.len() == j,
                forall|i: int| 0 <= i < j ==> #[trigger] out@[i]@ == self.base_graph_id_spec(i),
            decreases self.base_graph_count as usize - j,
        {
            let n: usize = self.data.len();
            let id: Vec<u8> = copy_range(
                self.data.as_slice(),
                self.base_graphs_offset + 20 * j,
                20,
            );
            out.push(id);
            j = j + 1;
        }
        out
    }

    /// All hashes of the file in position order.
    pub fn iter_ids(&self) -> (r: Vec<Vec<u8>>)
        requires
            self.wf(),
        ensures
            r@.len() == self.commit_count,
            forall|p: int|
                0 <= p < self.commit_count ==> #[trigger] r@[p]@ == self.id_at_spec(p),
    {
        let mut out: Vec<Vec<u8>> = Vec::new();
        let mut p: u32 = 0;
        while p < self.commit_count
            invariant
                self.wf(),
                0 <= p <= self.commit_count,
                out@.len() == p,
                forall|i: int| 0 <= i < p ==> #[trigger] out@[i]@ == self.id_at_spec(i),
            decreases self.commit_count - p,
        {
            let id: Vec<u8> = self.id_at(p);
            out.push(id);
            p = p + 1;
        }
        out
    }

    /// Find the local position of `id` by binary search over the range the
    /// fan-out table assigns to its first byte.  A returned position always
    /// holds `id`; when the hash table is sorted and the fan-out consistent,
    /// a present hash is always found, and the position is unique.
    pub fn lookup(&self, id: &[u8]) -> (r: Option<u32>)
        requires
            self.wf(),
            id@.len() == 20,
        ensures
            r matches Some(p) ==> p < self.commit_count && self.id_at_spec(p as int) == id@,
            (forall|p: int| 0 <= p < self.commit_count ==> self.id_at_spec(p) != id@) ==> r
                is None,
            (self.spec_sorted() && self.spec_fan_consistent() && (exists|p: int|
                0 <= p < self.commit_count && self.id_at_spec(p) == id@)) ==> r is Some,
            r matches Some(p) ==> (self.spec_sorted() ==> (forall|q: int|
                0 <= q < self.commit_count && self.id_at_spec(q) == id@ ==> q == p as int)),
    {
        let b0: u8 = id[0];
        let count: u32 = self.commit_count;
        let hi_raw: u32 = self.fan[b0 as usize];
        let lo_raw: u32 = if b0 == 0 {
            0
        } else {
            self.fan[(b0 - 1) as usize]
        };
        let mut hi: u32 = if hi_raw < count {
            hi_raw
        } else {
            count
        };
        let mut lo: u32 = if lo_raw < hi {
            lo_raw
        } else {
            hi
        };
        proof {
            if self.spec_sorted() && self.spec_fan_consistent() {
                assert forall|p: int|
                    0 <= p < count && self.id_at_spec(p) == id@ implies lo <= p < hi by {
                    assert(self.id_at_spec(p)[0] == self.id_byte0(p));
                    assert(self.id_byte0(p) == b0);
                    assert((self.id_byte0(p) as int <= b0 as int) <==> p < self.fan@[b0 as int]);
                    if b0 > 0 {
                        assert((self.id_byte0(p) as int <= b0 as int - 1) <==> p < self.fan@[b0
                            as int - 1]);
                    }
                }
            }
        }
        while lo < hi
            invariant
                self.wf(),
                id@.len() == 20,
                count == self.commit_count,
                lo <= hi <= count,
                (self.spec_sorted() && self.spec_fan_consistent()) ==> (forall|p: int|
                    0 <= p < count && self.id_at_spec(p) == id@ ==> lo <= p < hi),
            decreases hi - lo,
        {
            let mid: u32 = lo + (hi - lo) / 2;
            let mid_id: Vec<u8> = self.id_at(mid);
            let c: i32 = lex_cmp(mid_id.as_slice(), id);
            if c == 0 {
                proof {
                    if self.spec_sorted() {
                        assert forall|q: int|
                            0 <= q < count && self.id_at_spec(q) == id@ implies q == mid as int by {
                            if q < mid {
                                lemma_lex_irrefl(self.id_at_spec(q), self.id_at_spec(mid as int));
                            } else if q > mid {
                                lemma_lex_irrefl(self.id_at_spec(mid as int), self.id_at_spec(q));
                            }
                        }
                    }
                }
                return Some(mid);
            }
            if c < 0 {
                proof {
                    if self.spec_sorted() && self.spec_fan_consistent() {
                        assert forall|p: int|
                            0 <= p < count && self.id_at_spec(p) == id@ implies mid + 1 <= p
                            < hi by {
                            if p < mid {
                                lemma_lex_trans(
                                    self.id_at_spec(p),
                                    self.id_at_spec(mid as int),
                                    id@,
                                );
                                lemma_lex_asym(self.id_at_spec(p), id@);
                            } else if p == mid {
                                lemma_lex_asym(self.id_at_spec(mid as int), id@);
                            }
                        }
                    }
                }
                lo = mid + 1;
            } else {
                proof {
                    if self.spec_sorted() && self.spec_fan_consistent() {
                        assert forall|p: int|
                            0 <= p < count && self.id_at_spec(p) == id@ implies lo <= p
                            < mid by {
                            if p > mid {
                                lemma_lex_trans(
                                    id@,
                                    self.id_at_spec(mid as int),
                                    self.id_at_spec(p),
                                );
                                lemma_lex_asym(id@, self.id_at_spec(p));
                            } else if p == mid {
                                lemma_lex_asym(id@, self.id_at_spec(mid as int));
                            }
                        }
                    }
                }
                hi = mid;
            }
        }
        None
    }

    /// Read the commit-data record of local position `pos`.
    pub fn commit_at(&self, pos: u32) -> (r: Commit)
        requires
            self.wf(),
            pos < self.commit_count,
        ensures
            r.pos == pos,
            r.root_tree_id@ == self.root_tree_spec(pos as int),
            r.parent1 == spec_edge(self.parent1_word(pos as int)),
            r.parent2 == spec_edge(self.parent2_word(pos as int)),
            r.generation as int == self.generation_spec(pos as int),
            r.committer_timestamp as int == self.timestamp_spec(pos as int),
    {
        let n: usize = self.data.len();
        let base: usize = self.commit_data_offset + 36 * (pos as usize);
        let root_tree_id: Vec<u8> = copy_range(self.data.as_slice(), base, 20);
        let w1: u32 = read_be_u32(self.data.as_slice(), base + 20);
        let w2: u32 = read_be_u32(self.data.as_slice(), base + 24);
        let w64: u64 = read_be_u64(self.data.as_slice(), base + 28);
        proof {
            vstd::arithmetic::div_mod::lemma_div_is_ordered(
                w64 as int,
                u64::MAX as int,
                0x4_0000_0000,
            );
        }
        let generation: u32 = (w64 / 0x4_0000_0000) as u32;
        let committer_timestamp: u64 = w64 % 0x4_0000_0000;
        Commit {
            pos,
            root_tree_id,
            parent1: edge_from_word(w1),
            parent2: edge_from_word(w2),
            generation,
            committer_timestamp,
        }
    }

    /// The extra-edges run that starts at word `index`: up to and including
    /// the first top-bit word, truncated at the chunk boundary if the
    /// terminator is missing.
    pub fn extra_edges(&self, index: u32) -> (r: Vec<u32>)
        requires
            self.wf(),
        ensures
            r@ == self.extra_run_spec(index as int),
    {
        self.extra_edges_from(index as usize)
    }

    fn extra_edges_from(&self, k: usize) -> (r: Vec<u32>)
        requires
            self.wf(),
        ensures
            r@ == self.extra_run_spec(k as int),
        decreases self.num_extra_words() - k,
    {
        let nw: usize = if self.has_extra_edges {
            (self.extra_edges_end - self.extra_edges_start) / 4
        } else {
            0
        };
        if k >= nw {
            return Vec::new();
        }
        proof {
            vstd::arithmetic::div_mod::lemma_fundamental_div_mod(
                self.extra_edges_end - self.extra_edges_start,
                4,
            );
        }
        let w: u32 = read_be_u32(self.data.as_slice(), self.extra_edges_start + 4 * k);
        let mut out: Vec<u32> = Vec::new();
        out.push(w);
        if w >= EDGE_HIGH_BIT {
            proof {
                assert(out@ =~= self.extra_run_spec(k as int));
            }
            return out;
        }
        let mut rest: Vec<u32> = self.extra_edges_from(k + 1);
        out.append(&mut rest);
        proof {
            assert(out@ =~= self.extra_run_spec(k as int));
        }
        out
    }

    /// All parent positions of local position `pos`, in order.
    pub fn iter_parents(&self, pos: u32) -> (r: Vec<u32>)
        requires
            self.wf(),
            pos < self.commit_count,
        ensures
            r@ == self.parents_spec(pos as int),
    {
        let n: usize = self.data.len();
        let base: usize = self.commit_data_offset + 36 * (pos as usize);
        let w1: u32 = read_be_u32(self.data.as_slice(), base + 20);
        if w1 == NO_PARENT {
            return Vec::new();
        }
        let mut out: Vec<u32> = Vec::new();
        out.push(w1 % EDGE_HIGH_BIT);
        let w2: u32 = read_be_u32(self.data.as_slice(), base + 24);
        if w2 == NO_PARENT {
            proof {
                assert(out@ =~= self.parents_spec(pos as int));
            }
            return out;
        }
        if w2 >= EDGE_HIGH_BIT {
            let run: Vec<u32> = self.extra_edges(w2 - EDGE_HIGH_BIT);
            let n: usize = run.len();
            let mut i: usize = 0;
            while i < n
                invariant
                    0 <= i <= n,
                    n == run@.len(),
                    out@.len() == 1 + i,
                    out@[0] == w1 % EDGE_HIGH_BIT,
                    forall|j: int|
                        0 <= j < i ==> #[trigger] out@[j + 1] == ((run@[j] as int) % 0x8000_0000)
                            as u32,
                decreases n - i,
            {
                let masked: u32 = run[i] % EDGE_HIGH_BIT;
                out.push(masked);
                i = i + 1;
            }
            proof {
                let ghost expect = self.parents_spec(pos as int);
                assert(expect =~= seq![(w1 as int % 0x8000_0000) as u32] + run@.map_values(
                    |w: u32| ((w as int) % 0x8000_0000) as u32,
                ));
                assert(expect.len() == 1 + run@.len());
                assert forall|i: int| 0 <= i < run@.len() implies expect[i + 1] == ((run@[i]
                    as int) % 0x8000_0000) as u32 by {
                    assert(expect[i + 1] == run@.map_values(
                        |w: u32| ((w as int) % 0x8000_0000) as u32,
                    )[i]);
                }
                assert(out@ =~= expect);
            }
            return out;
        }
        out.push(w2);
        proof {
            assert(out@ =~= self.parents_spec(pos as int));
        }
        out
    }

    /// Whether the fan-out table never decreases.
    pub fn fan_monotonic(&self) -> (r: bool)
        requires
            self.wf(),
        ensures
            r == (forall|i: int| 0 <= i < 255 ==> self.fan@[i] <= #[trigger] self.fan@[i + 1]),
    {
        let mut i: usize = 0;
        while i < 255
            invariant
                self.wf(),
                0 <= i <= 255,
                forall|j: int| 0 <= j < i ==> self.fan@[j] <= #[trigger] self.fan@[j + 1],
            decreases 255 - i,
        {
            if self.fan[i] > self.fan[i + 1] {
                return false;
            }
            i = i + 1;
        }
        true
    }

    /// Whether the hash table is sorted strictly ascending.
    pub fn ids_sorted(&self) -> (r: bool)
        requires
            self.wf(),
        ensures
            r == self.spec_sorted(),
    {
        let count: u32 = self.commit_count;
        if count == 0 {
            return true;
        }
        let mut p: u32 = 1;
        while p < count
            invariant
                self.wf(),
                count == self.commit_count,
                1 <= p <= count,
                forall|q: int|
                    1 <= q < p ==> lex_less(
                        #[trigger] self.id_at_spec(q - 1),
                        self.id_at_spec(q),
                    ),
            decreases count - p,
        {
            let prev: Vec<u8> = self.id_at(p - 1);
            let cur: Vec<u8> = self.id_at(p);
            let c: i32 = lex_cmp(prev.as_slice(), cur.as_slice());
            if c >= 0 {
                proof {
                    assert(!lex_less(self.id_at_spec(p as int - 1), self.id_at_spec(p as int)));
                }
                return false;
            }
            p = p + 1;
        }
        proof {
            lemma_sorted_from_adjacent(*self);
        }
        true
    }

    /// Whether the fan-out table agrees with the hash table, bucket by bucket.
    pub fn fan_consistent(&self) -> (r: bool)
        requires
            self.wf(),
        ensures
            r == self.spec_fan_consistent(),
    {
        let count: u32 = self.commit_count;
        let mut b: usize = 0;
        while b < 256
            invariant
                self.wf(),
                count == self.commit_count,
                0 <= b <= 256,
                forall|b2: int, p: int|
                    #![trigger self.fan@[b2], self.id_byte0(p)]
                    0 <= b2 < b && 0 <= p < count ==> ((self.id_byte0(p) as int <= b2) <==> p
                        < self.fan@[b2]),
            decreases 256 - b,
        {
            let fan_b: u32 = self.fan[b];
            let mut p: u32 = 0;
            while p < count
                invariant
                    self.wf(),
                    count == self.commit_count,
                    0 <= b < 256,
                    fan_b == self.fan@[b as int],
                    0 <= p <= count,
                    forall|b2: int, p2: int|
                        #![trigger self.fan@[b2], self.id_byte0(p2)]
                        0 <= b2 < b && 0 <= p2 < count ==> ((self.id_byte0(p2) as int <= b2) <==> p2
                            < self.fan@[b2]),
                    forall|p2: int|
                        0 <= p2 < p ==> ((#[trigger] self.id_byte0(p2) as int <= b as int) <==> p2
                            < self.fan@[b as int]),
                decreases count - p,
            {
                let n: usize = self.data.len();
                let byte0: u8 = self.data[self.oid_lookup_offset + 20 * (p as usize)];
                let in_bucket: bool = byte0 as usize <= b;
                let below: bool = p < fan_b;
                if in_bucket != below {
                    proof {
                        assert(self.id_byte0(p as int) == byte0);
                        assert(!(((self.id_byte0(p as int) as int <= b as int)) <==> ((p as int)
                            < self.fan@[b as int])));
                    }
                    return false;
                }
                p = p + 1;
            }
            b = b + 1;
        }
        true
    }

    /// Whether every in-file parent edge respects generation order.
    pub fn generations_ordered(&self) -> (r: bool)
        requires
            self.wf(),
        ensures
            r == self.spec_generations_ok(),
    {
        let count: u32 = self.commit_count;
        let mut c: u32 = 0;
        while c < count
            invariant
                self.wf(),
                count == self.commit_count,
                0 <= c <= count,
                forall|c2: int, j: int|
                    #![trigger self.parents_spec(c2)[j]]
                    0 <= c2 < c && 0 <= j < self.parents_spec(c2).len() ==> ((self.parents_spec(
                        c2,
                    )[j] as int) < count ==> ((self.generation_spec(
                        self.parents_spec(c2)[j] as int,
                    ) > 0 && self.generation_spec(c2) > 0) ==> self.generation_spec(
                        self.parents_spec(c2)[j] as int,
                    ) < self.generation_spec(c2))),
            decreases count - c,
        {
            let child: Commit = self.commit_at(c);
            let parents: Vec<u32> = self.iter_parents(c);
            let n: usize = parents.len();
            let mut j: usize = 0;
            while j < n
                invariant
                    self.wf(),
                    count == self.commit_count,
                    0 <= c < count,
                    n == parents@.len(),
                    parents@ == self.parents_spec(c as int),
                    child.generation as int == self.generation_spec(c as int),
                    0 <= j <= n,
                    forall|j2: int|
                        0 <= j2 < j ==> ((#[trigger] self.parents_spec(c as int)[j2] as int)
                            < count ==> ((self.generation_spec(
                            self.parents_spec(c as int)[j2] as int,
                        ) > 0 && self.generation_spec(c as int) > 0) ==> self.generation_spec(
                            self.parents_spec(c as int)[j2] as int,
                        ) < self.generation_spec(c as int))),
                decreases n - j,
            {
                let q: u32 = parents[j];
                if q < count {
                    let parent: Commit = self.commit_at(q);
                    if parent.generation > 0 && child.generation > 0 && parent.generation
                        >= child.generation {
                        return false;
                    }
                }
                j = j + 1;
            }
            c = c + 1;
        }
        true
    }

    /// Open and validate the commit-graph file at `path`.  An `Io` error,
    /// carrying the path, arises exactly when the file cannot be read; every
    /// other outcome is `try_from_bytes` on the bytes read.
    pub fn at(path: &str) -> (r: Result<File, Error>)
        ensures
            r matches Ok(f) ==> f.wf() && spec_valid(f.data@) && spec_models(f, f.data@)
                && f.path@ == path@,
            r matches Err(Error::Io(p)) ==> p@ == path@,
    {
        let data: Vec<u8> = match map_file_bytes(path) {
            Some(d) => d,
            None => {
                return Err(Error::Io(path.to_owned()));
            },
        };
        File::try_from_bytes(data, path.to_owned())
    }
}

/// Decode one raw edge word.
fn edge_from_word(w: u32) -> (r: ParentEdge)
    ensures
        r == spec_edge(w as int),
{
    if w == NO_PARENT {
        ParentEdge::NoParent
    } else if w >= EDGE_HIGH_BIT {
        ParentEdge::ExtraEdgeIndex(w - EDGE_HIGH_BIT)
    } else {
        ParentEdge::InGraph(w)
    }
}

/// Relies on filebuffer::FileBuffer::open, which memory-maps the file at
/// `path`; the mapped bytes are copied out.  Nothing is assumed about what
/// the file holds.
#[verifier::external_body]
fn map_file_bytes(path: &str) -> (r: Option<Vec<u8>>) {
    match filebuffer::FileBuffer::open(std::path::Path::new(path)) {
        Ok(b) => Some(b.to_vec()),
        Err(_) => None,
    }
}

/// A sorted hash table holds each hash at most once: the hash stored at a
/// position occurs at no other position.  Together with the completeness
/// clause of `lookup`, looking up `id_at(p)` round-trips to exactly `Some(p)`.
pub proof fn lemma_ids_injective(f: File, p: int)
    requires
        f.wf(),
        f.spec_sorted(),
        0 <= p < f.commit_count,
    ensures
        forall|q: int|
            0 <= q < f.commit_count && #[trigger] f.id_at_spec(q) == f.id_at_spec(p) ==> q == p,
{
    assert forall|q: int|
        0 <= q < f.commit_count && #[trigger] f.id_at_spec(q) == f.id_at_spec(p) implies q
        == p by {
        if q < p {
            lemma_lex_irrefl(f.id_at_spec(q), f.id_at_spec(p));
        } else if p < q {
            lemma_lex_irrefl(f.id_at_spec(p), f.id_at_spec(q));
        }
    }
}

/// A hash table whose adjacent entries ascend is sorted as a whole.
proof fn lemma_sorted_from_adjacent(f: File)
    requires
        f.wf(),
        forall|q: int|
            1 <= q < f.commit_count ==> lex_less(#[trigger] f.id_at_spec(q - 1), f.id_at_spec(q)),
    ensures
        f.spec_sorted(),
{
    assert forall|p: int, q: int|
        0 <= p < q < f.commit_count implies lex_less(
        #[trigger] f.id_at_spec(p),
        #[trigger] f.id_at_spec(q),
    ) by {
        lemma_chain_less(f, p, q);
    }
}

proof fn lemma_chain_less(f: File, p: int, q: int)
    requires
        f.wf(),
        forall|i: int|
            1 <= i < f.commit_count ==> lex_less(#[trigger] f.id_at_spec(i - 1), f.id_at_spec(i)),
        0 <= p < q < f.commit_count,
    ensures
        lex_less(f.id_at_spec(p), f.id_at_spec(q)),
    decreases q - p,
{
    if p + 1 == q {
        assert(lex_less(f.id_at_spec(q - 1), f.id_at_spec(q)));
    } else {
        lemma_chain_less(f, p, q - 1);
        assert(lex_less(f.id_at_spec(q - 1), f.id_at_spec(q)));
        lemma_lex_trans(f.id_at_spec(p), f.id_at_spec(q - 1), f.id_at_spec(q));
    }
}

/// The directory facts gathered by the walk yield the chunk locations, sizes
/// and bounds that `chunk_dir_models` records.
proof fn lemma_chunk_dir_models(d: Seq<u8>, c: ChunkDir)
    requires
        forall|j: int|
            0 <= j < spec_chunk_count(d) ==> #[trigger] entry_off(d, j) <= entry_off(d, j + 1)
                && entry_off(d, j + 1) < d.len(),
        forall|j: int|
            0 <= j < spec_chunk_count(d) ==> #[trigger] spec_size_mult_ok_at(d, j)
                && spec_base_count_ok_at(d, j),
        0 <= c.fan_j@ < spec_chunk_count(d),
        entry_id(d, c.fan_j@) == OID_FAN_CHUNK_ID as int,
        c.fan_offset as int == entry_off(d, c.fan_j@),
        0 <= c.oidl_j@ < spec_chunk_count(d),
        entry_id(d, c.oidl_j@) == OID_LOOKUP_CHUNK_ID as int,
        c.oid_lookup_offset as int == entry_off(d, c.oidl_j@),
        c.oid_lookup_count as int == (entry_off(d, c.oidl_j@ + 1) - entry_off(d, c.oidl_j@)) / 20,
        0 <= c.cdat_j@ < spec_chunk_count(d),
        entry_id(d, c.cdat_j@) == COMMIT_DATA_CHUNK_ID as int,
        c.commit_data_offset as int == entry_off(d, c.cdat_j@),
        c.commit_data_count as int == (entry_off(d, c.cdat_j@ + 1) - entry_off(d, c.cdat_j@))
            / 36,
        c.extra_edges_range matches Some(se) ==> 0 <= c.edge_j@ < spec_chunk_count(d) && entry_id(
            d,
            c.edge_j@,
        ) == EXTENDED_EDGES_LIST_CHUNK_ID as int && se.0 as int == entry_off(d, c.edge_j@) && se.1
            as int == entry_off(d, c.edge_j@ + 1) && se.0 <= se.1,
        c.extra_edges_range is None ==> !spec_has_chunk(d, EXTENDED_EDGES_LIST_CHUNK_ID as int),
        c.base_graphs_list_offset matches Some(o) ==> 0 <= c.base_j@ < spec_chunk_count(d)
            && entry_id(d, c.base_j@) == BASE_GRAPHS_LIST_CHUNK_ID as int && o as int == entry_off(
            d,
            c.base_j@,
        ),
        c.base_graphs_list_offset is None ==> spec_base_graph_count(d) == 0 && !spec_has_chunk(
            d,
            BASE_GRAPHS_LIST_CHUNK_ID as int,
        ),
    ensures
        chunk_dir_models(c, d),
{
    let fan_j = c.fan_j@;
    let oidl_j = c.oidl_j@;
    let cdat_j = c.cdat_j@;
    let base_j = c.base_j@;
    let edge_j = c.edge_j@;
    assert(spec_size_mult_ok_at(d, fan_j) && spec_base_count_ok_at(d, fan_j));
    assert(spec_size_mult_ok_at(d, oidl_j) && spec_base_count_ok_at(d, oidl_j));
    assert(spec_size_mult_ok_at(d, cdat_j) && spec_base_count_ok_at(d, cdat_j));
    assert(entry_off(d, fan_j + 1) - entry_off(d, fan_j) == 1024 && (entry_off(d, oidl_j + 1)
        - entry_off(d, oidl_j)) % 20 == 0 && (entry_off(d, cdat_j + 1) - entry_off(d, cdat_j))
        % 36 == 0) by {
        reveal(spec_size_mult_ok_at);
    }
    assert(entry_off(d, fan_j) <= entry_off(d, fan_j + 1) && entry_off(d, fan_j + 1) < d.len());
    assert(entry_off(d, oidl_j) <= entry_off(d, oidl_j + 1) && entry_off(d, oidl_j + 1)
        < d.len());
    assert(entry_off(d, cdat_j) <= entry_off(d, cdat_j + 1) && entry_off(d, cdat_j + 1)
        < d.len());
    if c.base_graphs_list_offset is Some {
        assert(spec_size_mult_ok_at(d, base_j) && spec_base_count_ok_at(d, base_j));
        assert((entry_off(d, base_j + 1) - entry_off(d, base_j)) % 20 == 0 && (entry_off(
            d,
            base_j + 1,
        ) - entry_off(d, base_j)) / 20 == spec_base_graph_count(d)) by {
            reveal(spec_size_mult_ok_at);
            reveal(spec_base_count_ok_at);
        }
        assert(entry_off(d, base_j) <= entry_off(d, base_j + 1) && entry_off(d, base_j + 1)
            < d.len());
    }
    if c.extra_edges_range is Some {
        assert(entry_off(d, edge_j) <= entry_off(d, edge_j + 1) && entry_off(d, edge_j + 1)
            < d.len());
    }
}

/// A bad offset pair at entry `k` breaks the file.
proof fn lemma_break_offsets(d: Seq<u8>, k: int)
    requires
        0 <= k < spec_chunk_count(d),
        !(entry_off(d, k) <= entry_off(d, k + 1) && entry_off(d, k + 1) < d.len()),
    ensures
        !spec_offsets_ok(d),
        !spec_valid(d),
{
    assert(!spec_offsets_ok(d)) by {
        reveal(spec_offsets_ok);
        assert(!(entry_off(d, k) <= entry_off(d, k + 1) && entry_off(d, k + 1) < d.len()));
    }
    assert(!spec_valid(d)) by {
        reveal(spec_valid);
    }
}

/// A repeated recognized id breaks the file.
proof fn lemma_break_dup(d: Seq<u8>, j1: int, j2: int)
    requires
        0 <= j1 < j2 < spec_chunk_count(d),
        spec_recognized(entry_id(d, j1)),
        entry_id(d, j1) == entry_id(d, j2),
    ensures
        !spec_no_dup(d),
        !spec_valid(d),
{
    reveal(spec_no_dup);
    reveal(spec_valid);
}

/// A chunk whose size violates its multiple constraint breaks the file.
proof fn lemma_break_mult(d: Seq<u8>, k: int)
    requires
        0 <= k < spec_chunk_count(d),
        !spec_size_mult_ok_at(d, k),
    ensures
        !spec_sizes_mult_ok(d),
        !spec_valid(d),
{
    reveal(spec_sizes_mult_ok);
    reveal(spec_valid);
}

/// A base-graphs list that disagrees with the header breaks the file.
proof fn lemma_break_base_count(d: Seq<u8>, k: int)
    requires
        0 <= k < spec_chunk_count(d),
        !spec_base_count_ok_at(d, k),
    ensures
        !spec_base_counts_ok(d),
        !spec_valid(d),
{
    reveal(spec_base_counts_ok);
    reveal(spec_valid);
}

/// A final directory entry that is not the sentinel breaks the file.
proof fn lemma_break_sentinel(d: Seq<u8>)
    requires
        entry_id(d, spec_chunk_count(d)) != SENTINEL_CHUNK_ID as int,
    ensures
        !spec_sentinel_ok(d),
        !spec_valid(d),
{
    reveal(spec_sentinel_ok);
    reveal(spec_valid);
}

/// A missing required chunk breaks the file.
proof fn lemma_break_missing(d: Seq<u8>)
    requires
        !spec_has_chunk(d, OID_FAN_CHUNK_ID as int) || !spec_has_chunk(
            d,
            OID_LOOKUP_CHUNK_ID as int,
        ) || !spec_has_chunk(d, COMMIT_DATA_CHUNK_ID as int) || (spec_base_graph_count(d) > 0
            && !spec_has_chunk(d, BASE_GRAPHS_LIST_CHUNK_ID as int)),
    ensures
        !spec_required_ok(d),
        !spec_valid(d),
{
    reveal(spec_required_ok);
    reveal(spec_valid);
}

/// Under `spec_no_dup`, any entry index found to carry a recognized id is the
/// one `spec_chunk_index` denotes.
proof fn lemma_unique_chunk_index(d: Seq<u8>, id: int, j: int)
    requires
        spec_no_dup(d),
        spec_recognized(id),
        0 <= j < spec_chunk_count(d),
        entry_id(d, j) == id,
    ensures
        spec_has_chunk(d, id),
        spec_chunk_index(d, id) == j,
{
    reveal(spec_no_dup);
    assert(spec_has_chunk(d, id));
    let j2 = spec_chunk_index(d, id);
    assert(0 <= j2 < spec_chunk_count(d) && entry_id(d, j2) == id) by {
        assert(exists|k: int| 0 <= k < spec_chunk_count(d) && entry_id(d, k) == id);
    }
    if j < j2 {
        assert(entry_id(d, j) != entry_id(d, j2));
    } else if j2 < j {
        assert(entry_id(d, j2) != entry_id(d, j));
    }
}

} // verus!
