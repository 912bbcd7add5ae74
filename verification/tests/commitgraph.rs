//! Tests of the commit-graph file reader and the composed chain, over files
//! built byte by byte.

use gitcore::file::{Error, File, ParentEdge};
use gitcore::graph::Graph;

const NO_PARENT: u32 = 0x7000_0000;
const HIGH_BIT: u32 = 0x8000_0000;

fn be32(v: u32, out: &mut Vec<u8>) {
    out.extend_from_slice(&v.to_be_bytes());
}

fn be64(v: u64, out: &mut Vec<u8>) {
    out.extend_from_slice(&v.to_be_bytes());
}

/// A commit hash whose first byte is `b`, padded with `b` everywhere.
fn oid(b: u8) -> Vec<u8> {
    vec![b; 20]
}

/// A 1024-byte cumulative fan-out for the given sorted list of first bytes.
fn fan_for(firsts: &[u8]) -> Vec<u8> {
    let mut out = Vec::new();
    for b in 0u32..256 {
        let count = firsts.iter().filter(|f| (**f as u32) <= b).count() as u32;
        be32(count, &mut out);
    }
    out
}

/// One 36-byte commit-data record.
fn record(tree: u8, p1: u32, p2: u32, generation: u64, timestamp: u64) -> Vec<u8> {
    let mut out = vec![tree; 20];
    be32(p1, &mut out);
    be32(p2, &mut out);
    be64((generation << 34) | timestamp, &mut out);
    out
}

/// Assemble a commit-graph file from chunk ids and contents, with a header
/// declaring `base_count` base graphs and a trailing 20-byte checksum.
fn build_file(chunks: &[(u32, Vec<u8>)], base_count: u8, checksum: u8) -> Vec<u8> {
    let mut out = vec![0x43, 0x47, 0x50, 0x48, 1, 1, chunks.len() as u8, base_count];
    let mut offset = (8 + 12 * (chunks.len() + 1)) as u64;
    for (id, data) in chunks {
        be32(*id, &mut out);
        be64(offset, &mut out);
        offset += data.len() as u64;
    }
    be32(0, &mut out);
    be64(offset, &mut out);
    for (_, data) in chunks {
        out.extend_from_slice(data);
    }
    out.extend_from_slice(&[checksum; 20]);
    out
}

const OIDF: u32 = 0x4F49_4446;
const OIDL: u32 = 0x4F49_444C;
const CDAT: u32 = 0x4344_4154;
const EDGE: u32 = 0x4544_4745;
const BASE: u32 = 0x4241_5345;

/// A file with three commits: two roots and a merge child of both.
fn two_parents_file() -> Vec<u8> {
    let mut oidl = Vec::new();
    oidl.extend_from_slice(&oid(0x10));
    oidl.extend_from_slice(&oid(0x20));
    oidl.extend_from_slice(&oid(0x30));
    let mut cdat = Vec::new();
    cdat.extend_from_slice(&record(0xAA, NO_PARENT, NO_PARENT, 1, 100));
    cdat.extend_from_slice(&record(0xBB, NO_PARENT, NO_PARENT, 1, 200));
    cdat.extend_from_slice(&record(0xCC, 0, 1, 2, 300));
    build_file(
        &[(OIDF, fan_for(&[0x10, 0x20, 0x30])), (OIDL, oidl), (CDAT, cdat)],
        0,
        0,
    )
}

#[test]
fn test() {
    let file = File::try_from_bytes(two_parents_file(), String::new()).unwrap();
    assert_eq!(file.len(), 3);
    let parent1_pos = file.lookup(&oid(0x10)).unwrap();
    let parent2_pos = file.lookup(&oid(0x20)).unwrap();
    let child_pos = file.lookup(&oid(0x30)).unwrap();
    assert_eq!(file.commit_at(parent1_pos).generation(), 1);
    assert_eq!(file.commit_at(parent2_pos).generation(), 1);
    assert_eq!(file.commit_at(child_pos).generation(), 2);
    assert_eq!(file.iter_parents(child_pos), vec![parent1_pos, parent2_pos]);
    assert_eq!(file.iter_parents(parent1_pos), Vec::<u32>::new());
    assert_eq!(file.iter_parents(parent2_pos), Vec::<u32>::new());
}

#[test]
fn single_commit_no_parents() {
    let cdat = record(0xAA, NO_PARENT, NO_PARENT, 1, 42);
    let data = build_file(
        &[(OIDF, fan_for(&[0x10])), (OIDL, oid(0x10)), (CDAT, cdat)],
        0,
        0,
    );
    let file = File::try_from_bytes(data, String::new()).unwrap();
    assert_eq!(file.len(), 1);
    let c = file.commit_at(0);
    assert_eq!(c.generation(), 1);
    assert_eq!(c.committer_timestamp(), 42);
    assert_eq!(file.iter_parents(0), Vec::<u32>::new());
}

#[test]
fn octopus_merge() {
    let mut oidl = Vec::new();
    for b in [0x01u8, 0x02, 0x03, 0x04, 0x05] {
        oidl.extend_from_slice(&oid(b));
    }
    let mut cdat = Vec::new();
    for b in [0xA1u8, 0xA2, 0xA3, 0xA4] {
        cdat.extend_from_slice(&record(b, NO_PARENT, NO_PARENT, 1, 10));
    }
    // the child: first parent at position 0, the rest through the extra list
    cdat.extend_from_slice(&record(0xC0, 0, HIGH_BIT | 0, 2, 20));
    let mut edge = Vec::new();
    be32(1, &mut edge);
    be32(2, &mut edge);
    be32(HIGH_BIT | 3, &mut edge);
    let data = build_file(
        &[
            (OIDF, fan_for(&[0x01, 0x02, 0x03, 0x04, 0x05])),
            (OIDL, oidl),
            (CDAT, cdat),
            (EDGE, edge),
        ],
        0,
        0,
    );
    let file = File::try_from_bytes(data, String::new()).unwrap();
    assert_eq!(file.len(), 5);
    let child = file.commit_at(4);
    assert_eq!(child.parent1(), ParentEdge::InGraph(0));
    assert_eq!(child.parent2(), ParentEdge::ExtraEdgeIndex(0));
    let run = file.extra_edges(0);
    assert_eq!(run.len(), 3);
    assert!(run[2] & HIGH_BIT != 0);
    assert_eq!(
        run.iter().map(|w| w & 0x7FFF_FFFF).collect::<Vec<u32>>(),
        vec![1, 2, 3]
    );
    assert_eq!(file.iter_parents(4), vec![0, 1, 2, 3]);
}

#[test]
fn corrupt_signature() {
    let mut data = two_parents_file();
    data[0] = b'X';
    data[1] = b'X';
    data[2] = b'X';
    data[3] = b'X';
    let err = File::try_from_bytes(data, String::new()).unwrap_err();
    assert!(matches!(err, Error::Corrupt(_)));
}

#[test]
fn missing_required_chunk() {
    let data = build_file(&[(OIDF, fan_for(&[])), (OIDL, Vec::new())], 0, 0);
    let err = File::try_from_bytes(data, String::new()).unwrap_err();
    assert_eq!(err, Error::MissingChunk(CDAT));
}

#[test]
fn duplicate_chunk() {
    let cdat = record(0xAA, NO_PARENT, NO_PARENT, 1, 1);
    let data = build_file(
        &[
            (OIDF, fan_for(&[0x10])),
            (OIDL, oid(0x10)),
            (CDAT, cdat.clone()),
            (CDAT, cdat),
        ],
        0,
        0,
    );
    let err = File::try_from_bytes(data, String::new()).unwrap_err();
    assert_eq!(err, Error::DuplicateChunk(CDAT));
}

#[test]
fn commit_count_mismatch() {
    // fan-out counts one commit, but the hash table holds two
    let mut oidl = Vec::new();
    oidl.extend_from_slice(&oid(0x10));
    oidl.extend_from_slice(&oid(0x20));
    let cdat = record(0xAA, NO_PARENT, NO_PARENT, 1, 1);
    let data = build_file(&[(OIDF, fan_for(&[0x10])), (OIDL, oidl), (CDAT, cdat)], 0, 0);
    let err = File::try_from_bytes(data, String::new()).unwrap_err();
    assert_eq!(
        err,
        Error::CommitCountMismatch {
            chunk1_id: OIDF,
            chunk1_commits: 1,
            chunk2_id: OIDL,
            chunk2_commits: 2,
        }
    );
}

#[test]
fn unsupported_versions() {
    let mut data = two_parents_file();
    data[4] = 2;
    assert_eq!(
        File::try_from_bytes(data, String::new()).unwrap_err(),
        Error::UnsupportedVersion(2)
    );
    let mut data2 = two_parents_file();
    data2[5] = 3;
    assert_eq!(
        File::try_from_bytes(data2, String::new()).unwrap_err(),
        Error::UnsupportedHashVersion(3)
    );
}

#[test]
fn base_graph_count_mismatch() {
    let cdat = record(0xAA, NO_PARENT, NO_PARENT, 1, 1);
    // header declares one base graph, but the list is empty
    let data = build_file(
        &[
            (OIDF, fan_for(&[0x10])),
            (OIDL, oid(0x10)),
            (CDAT, cdat),
            (BASE, Vec::new()),
        ],
        1,
        0,
    );
    let err = File::try_from_bytes(data, String::new()).unwrap_err();
    assert!(matches!(err, Error::BaseGraphMismatch { .. }));
}

#[test]
fn index_invariants_hold_on_valid_file() {
    let file = File::try_from_bytes(two_parents_file(), String::new()).unwrap();
    assert!(file.fan_monotonic());
    assert!(file.ids_sorted());
    assert!(file.fan_consistent());
    assert!(file.generations_ordered());
}

#[test]
fn unsorted_ids_are_detected() {
    // hashes out of order: the loader accepts the file, the checker rejects it
    let mut oidl = Vec::new();
    oidl.extend_from_slice(&oid(0x20));
    oidl.extend_from_slice(&oid(0x10));
    let mut cdat = Vec::new();
    cdat.extend_from_slice(&record(0xAA, NO_PARENT, NO_PARENT, 1, 1));
    cdat.extend_from_slice(&record(0xBB, NO_PARENT, NO_PARENT, 1, 2));
    let data = build_file(&[(OIDF, fan_for(&[0x10, 0x20])), (OIDL, oidl), (CDAT, cdat)], 0, 0);
    let file = File::try_from_bytes(data, String::new()).unwrap();
    assert!(!file.ids_sorted());
    assert!(!file.fan_consistent());
}

#[test]
fn generation_violation_is_detected() {
    // the child's generation equals its parent's
    let mut oidl = Vec::new();
    oidl.extend_from_slice(&oid(0x10));
    oidl.extend_from_slice(&oid(0x20));
    let mut cdat = Vec::new();
    cdat.extend_from_slice(&record(0xAA, NO_PARENT, NO_PARENT, 3, 1));
    cdat.extend_from_slice(&record(0xBB, 0, NO_PARENT, 3, 2));
    let data = build_file(&[(OIDF, fan_for(&[0x10, 0x20])), (OIDL, oidl), (CDAT, cdat)], 0, 0);
    let file = File::try_from_bytes(data, String::new()).unwrap();
    assert!(!file.generations_ordered());
}

#[test]
fn lookup_round_trip() {
    let file = File::try_from_bytes(two_parents_file(), String::new()).unwrap();
    for p in 0..file.len() {
        let id = file.id_at(p);
        assert_eq!(file.lookup(&id), Some(p));
    }
    assert_eq!(file.lookup(&oid(0x15)), None);
    assert_eq!(file.lookup(&oid(0x40)), None);
}

/// A two-file chain: two commits below, one above whose parent is global
/// position zero.
fn split_chain() -> (Vec<u8>, Vec<u8>) {
    let mut oidl = Vec::new();
    oidl.extend_from_slice(&oid(0x10));
    oidl.extend_from_slice(&oid(0x20));
    let mut cdat = Vec::new();
    cdat.extend_from_slice(&record(0xAA, NO_PARENT, NO_PARENT, 1, 1));
    cdat.extend_from_slice(&record(0xBB, NO_PARENT, NO_PARENT, 1, 2));
    let lower = build_file(&[(OIDF, fan_for(&[0x10, 0x20])), (OIDL, oidl), (CDAT, cdat)], 0, 0x5A);
    let upper_cdat = record(0xCC, 0, NO_PARENT, 2, 3);
    let upper = build_file(
        &[
            (OIDF, fan_for(&[0x15])),
            (OIDL, oid(0x15)),
            (CDAT, upper_cdat),
            (BASE, vec![0x5A; 20]),
        ],
        1,
        0,
    );
    (lower, upper)
}

#[test]
fn split_graph() {
    let (lower, upper) = split_chain();
    let lower = File::try_from_bytes(lower, String::new()).unwrap();
    let upper = File::try_from_bytes(upper, String::new()).unwrap();
    let graph = Graph::from_files(vec![lower, upper]).unwrap();
    assert_eq!(graph.len(), 3);
    // the lower file's hashes sit at global positions below two
    assert!(graph.lookup(&oid(0x10)).unwrap() < 2);
    assert!(graph.lookup(&oid(0x20)).unwrap() < 2);
    // the upper file's commit follows, and points down into the lower file
    assert_eq!(graph.lookup(&oid(0x15)), Some(2));
    let child = graph.commit_at(2);
    assert_eq!(child.parent1(), ParentEdge::InGraph(0));
    assert_eq!(graph.iter_parents(2), vec![0]);
    assert_eq!(graph.id_at(2), oid(0x15));
    assert_eq!(graph.lookup(&oid(0x77)), None);
}

#[test]
fn split_graph_linkage_mismatch() {
    let (lower, upper) = split_chain();
    let lower = File::try_from_bytes(lower, String::new()).unwrap();
    let upper = File::try_from_bytes(upper, String::new()).unwrap();
    // wrong order: the upper file's base hash does not match
    let err = Graph::from_files(vec![upper, lower]).unwrap_err();
    assert!(matches!(err, Error::BaseGraphMismatch { .. }));
}

#[test]
fn graph_iter_ids_concatenates() {
    let (lower, upper) = split_chain();
    let lower = File::try_from_bytes(lower, String::new()).unwrap();
    let upper = File::try_from_bytes(upper, String::new()).unwrap();
    let graph = Graph::from_files(vec![lower, upper]).unwrap();
    let ids = graph.iter_ids();
    assert_eq!(ids, vec![oid(0x10), oid(0x20), oid(0x15)]);
}

#[test]
fn extra_edges_truncate_without_terminator() {
    // a run that never sets the top bit stops at the chunk boundary
    let mut oidl = Vec::new();
    oidl.extend_from_slice(&oid(0x10));
    oidl.extend_from_slice(&oid(0x20));
    oidl.extend_from_slice(&oid(0x30));
    let mut cdat = Vec::new();
    cdat.extend_from_slice(&record(0xAA, NO_PARENT, NO_PARENT, 1, 1));
    cdat.extend_from_slice(&record(0xBB, NO_PARENT, NO_PARENT, 1, 2));
    cdat.extend_from_slice(&record(0xCC, 0, HIGH_BIT | 0, 2, 3));
    let mut edge = Vec::new();
    be32(1, &mut edge);
    be32(1, &mut edge);
    let data = build_file(
        &[
            (OIDF, fan_for(&[0x10, 0x20, 0x30])),
            (OIDL, oidl),
            (CDAT, cdat),
            (EDGE, edge),
        ],
        0,
        0,
    );
    let file = File::try_from_bytes(data, String::new()).unwrap();
    assert_eq!(file.extra_edges(0), vec![1, 1]);
    assert_eq!(file.iter_parents(2), vec![0, 1, 1]);
}

#[test]
fn open_missing_file_is_an_io_error() {
    let err = File::at("no-such-commit-graph-file").unwrap_err();
    assert!(matches!(err, Error::Io(_)));
}

#[test]
fn root_tree_and_timestamp() {
    let file = File::try_from_bytes(two_parents_file(), String::new()).unwrap();
    let c = file.commit_at(2);
    assert_eq!(c.root_tree_id(), &vec![0xCC; 20]);
    assert_eq!(c.committer_timestamp(), 300);
    assert_eq!(c.position(), 2);
    assert_eq!(file.iter_ids(), vec![oid(0x10), oid(0x20), oid(0x30)]);
}
