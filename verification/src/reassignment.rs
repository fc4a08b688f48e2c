//! Parser for the pending-reassignment document kept by the coordination
//! service. The accepted form is the compact object
//! `{"version":N,"partitions":[{"topic":"T","partition":N,"replicas":[N,...]},...]}`:
//! unsigned decimal numbers that fit in 64 bits, topic names of printable
//! bytes without quotes, backslashes or escapes, and no interstitial
//! whitespace. Anything else is malformed, and the watcher then leaves the
//! cached entry untouched.
//!
//! The grammar is stated once, as recursive specification functions over
//! the raw byte sequence; the executable parser is proved to return
//! exactly what those functions describe.

use vstd::prelude::*;
use crate::metadata::{PartitionMove, PartitionMoveModel, Reassignment, ReassignmentModel};

verus! {

/// An ASCII decimal digit.
pub open spec fn is_digit(b: u8) -> bool {
    48 <= b && b <= 57
}

/// A byte allowed inside a topic name: printable, no quote, no backslash.
pub open spec fn is_plain(b: u8) -> bool {
    b != 34 && b != 92 && b >= 32
}

/// The bytes `{"version":`.
pub open spec fn lit_version() -> Seq<u8> {
    seq![123u8, 34u8, 118u8, 101u8, 114u8, 115u8, 105u8, 111u8, 110u8, 34u8, 58u8]
}

/// The bytes `,"partitions":[`.
pub open spec fn lit_partitions() -> Seq<u8> {
    seq![44u8, 34u8, 112u8, 97u8, 114u8, 116u8, 105u8, 116u8, 105u8, 111u8, 110u8, 115u8, 34u8, 58u8, 91u8]
}

/// The bytes `{"topic":`.
pub open spec fn lit_topic() -> Seq<u8> {
    seq![123u8, 34u8, 116u8, 111u8, 112u8, 105u8, 99u8, 34u8, 58u8]
}

/// The bytes `,"partition":`.
pub open spec fn lit_partition() -> Seq<u8> {
    seq![44u8, 34u8, 112u8, 97u8, 114u8, 116u8, 105u8, 116u8, 105u8, 111u8, 110u8, 34u8, 58u8]
}

/// The bytes `,"replicas":[`.
pub open spec fn lit_replicas() -> Seq<u8> {
    seq![44u8, 34u8, 114u8, 101u8, 112u8, 108u8, 105u8, 99u8, 97u8, 115u8, 34u8, 58u8, 91u8]
}

/// `lit` occurs in `s` at position `i`.
pub open spec fn spec_match_at(s: Seq<u8>, i: int, lit: Seq<u8>) -> bool {
    &&& 0 <= i
    &&& i + lit.len() <= s.len()
    &&& s.subrange(i, i + lit.len()) == lit
}

/// Value and end position of a digit run starting at `i` with accumulator
/// `acc`; `None` when the value leaves 64 bits.
pub open spec fn spec_digits(s: Seq<u8>, i: int, acc: int) -> Option<(u64, int)>
    decreases s.len() - i,
{
    if 0 <= i && i < s.len() && is_digit(s[i]) {
        let acc2 = acc * 10 + (s[i] - 48);
        if acc2 <= u64::MAX {
            spec_digits(s, i + 1, acc2)
        } else {
            None
        }
    } else {
        Some((acc as u64, i))
    }
}

/// An unsigned decimal number at `i`: at least one digit, value within
/// 64 bits.
pub open spec fn spec_parse_u64(s: Seq<u8>, i: int) -> Option<(u64, int)> {
    if 0 <= i && i < s.len() && is_digit(s[i]) {
        spec_digits(s, i, 0)
    } else {
        None
    }
}

/// First position at or after `i` whose byte may not stand in a topic name.
pub open spec fn spec_str_end(s: Seq<u8>, i: int) -> int
    decreases s.len() - i,
{
    if 0 <= i && i < s.len() && is_plain(s[i]) {
        spec_str_end(s, i + 1)
    } else {
        i
    }
}

/// A quoted topic name at `i`: its bytes and the position after the
/// closing quote.
pub open spec fn spec_parse_string(s: Seq<u8>, i: int) -> Option<(Seq<u8>, int)> {
    if 0 <= i && i < s.len() && s[i] == 34 {
        let e = spec_str_end(s, i + 1);
        if e < s.len() && s[e] == 34 {
            Some((s.subrange(i + 1, e), e + 1))
        } else {
            None
        }
    } else {
        None
    }
}

/// The remainder of a replica list after its first number: `,N`* then `]`.
pub open spec fn spec_u64_list_tail(s: Seq<u8>, i: int, acc: Seq<u64>) -> Option<(Seq<u64>, int)>
    decreases s.len() - i,
{
    if 0 <= i && i < s.len() && s[i] == 93 {
        Some((acc, i + 1))
    } else if 0 <= i && i < s.len() && s[i] == 44 {
        match spec_parse_u64(s, i + 1) {
            Some((v, j)) => {
                if i < j && j <= s.len() {
                    spec_u64_list_tail(s, j, acc.push(v))
                } else {
                    None
                }
            },
            None => None,
        }
    } else {
        None
    }
}

/// A replica list at `i`, its opening bracket already consumed: numbers
/// separated by commas, closed by `]`.
pub open spec fn spec_u64_list(s: Seq<u8>, i: int) -> Option<(Seq<u64>, int)> {
    if 0 <= i && i < s.len() && s[i] == 93 {
        Some((Seq::empty(), i + 1))
    } else {
        match spec_parse_u64(s, i) {
            Some((v, j)) => {
                if i < j && j <= s.len() {
                    spec_u64_list_tail(s, j, seq![v])
                } else {
                    None
                }
            },
            None => None,
        }
    }
}

/// One pending partition migration at `i`:
/// `{"topic":"T","partition":N,"replicas":[N,...]}`.
pub open spec fn spec_parse_move(s: Seq<u8>, i: int) -> Option<(PartitionMoveModel, int)> {
    if spec_match_at(s, i, lit_topic()) {
        match spec_parse_string(s, i + lit_topic().len()) {
            Some((name, j)) => {
                if spec_match_at(s, j, lit_partition()) {
                    match spec_parse_u64(s, j + lit_partition().len()) {
                        Some((p, j2)) => {
                            if spec_match_at(s, j2, lit_replicas()) {
                                match spec_u64_list(s, j2 + lit_replicas().len()) {
                                    Some((reps, j3)) => {
                                        if 0 <= j3 && j3 < s.len() && s[j3] == 125 {
                                            Some((
                                                PartitionMoveModel {
                                                    topic: name,
                                                    partition: p,
                                                    replicas: reps,
                                                },
                                                j3 + 1,
                                            ))
                                        } else {
                                            None
                                        }
                                    },
                                    None => None,
                                }
                            } else {
                                None
                            }
                        },
                        None => None,
                    }
                } else {
                    None
                }
            },
            None => None,
        }
    } else {
        None
    }
}

/// The remainder of the partition list after its first element.
pub open spec fn spec_move_list_tail(
    s: Seq<u8>,
    i: int,
    acc: Seq<PartitionMoveModel>,
) -> Option<(Seq<PartitionMoveModel>, int)>
    decreases s.len() - i,
{
    if 0 <= i && i < s.len() && s[i] == 93 {
        Some((acc, i + 1))
    } else if 0 <= i && i < s.len() && s[i] == 44 {
        match spec_parse_move(s, i + 1) {
            Some((m, j)) => {
                if i < j && j <= s.len() {
                    spec_move_list_tail(s, j, acc.push(m))
                } else {
                    None
                }
            },
            None => None,
        }
    } else {
        None
    }
}

/// The partition list at `i`, its opening bracket already consumed.
pub open spec fn spec_move_list(s: Seq<u8>, i: int) -> Option<(Seq<PartitionMoveModel>, int)> {
    if 0 <= i && i < s.len() && s[i] == 93 {
        Some((Seq::empty(), i + 1))
    } else {
        match spec_parse_move(s, i) {
            Some((m, j)) => {
                if i < j && j <= s.len() {
                    spec_move_list_tail(s, j, seq![m])
                } else {
                    None
                }
            },
            None => None,
        }
    }
}

/// The whole document: `{"version":N,"partitions":[...]}` spanning the
/// entire input.
pub open spec fn spec_parse_doc(s: Seq<u8>) -> Option<ReassignmentModel> {
    if spec_match_at(s, 0, lit_version()) {
        match spec_parse_u64(s, lit_version().len() as int) {
            Some((v, j)) => {
                if spec_match_at(s, j, lit_partitions()) {
                    match spec_move_list(s, j + lit_partitions().len()) {
                        Some((ms, j2)) => {
                            if 0 <= j2 && j2 + 1 == s.len() && s[j2] == 125 {
                                Some(ReassignmentModel { version: v, partitions: ms })
                            } else {
                                None
                            }
                        },
                        None => None,
                    }
                } else {
                    None
                }
            },
            None => None,
        }
    } else {
        None
    }
}

/// All positions in `[a, j)` hold name bytes and `j` is the first that
/// does not: then `j` is where the name ends.
proof fn lemma_str_end(s: Seq<u8>, a: int, j: int)
    requires
        0 <= a <= j <= s.len(),
        forall|k: int| a <= k < j ==> is_plain(#[trigger] s[k]),
        j == s.len() || !is_plain(s[j]),
    ensures
        spec_str_end(s, a) == j,
    decreases j - a,
{
    if a < j {
        lemma_str_end(s, a + 1, j);
    }
}

/// The bytes `{"version":` as a vector.
fn lit_version_vec() -> (v: Vec<u8>)
    ensures
        v@ == lit_version(),
{
    let v: Vec<u8> = vec![123u8, 34u8, 118u8, 101u8, 114u8, 115u8, 105u8, 111u8, 110u8, 34u8, 58u8];
    proof {
        assert(v@ =~= lit_version());
    }
    v
}

/// The bytes `,"partitions":[` as a vector.
fn lit_partitions_vec() -> (v: Vec<u8>)
    ensures
        v@ == lit_partitions(),
{
    let v: Vec<u8> = vec![44u8, 34u8, 112u8, 97u8, 114u8, 116u8, 105u8, 116u8, 105u8, 111u8, 110u8, 115u8, 34u8, 58u8, 91u8];
    proof {
        assert(v@ =~= lit_partitions());
    }
    v
}

/// The bytes `{"topic":` as a vector.
fn lit_topic_vec() -> (v: Vec<u8>)
    ensures
        v@ == lit_topic(),
{
    let v: Vec<u8> = vec![123u8, 34u8, 116u8, 111u8, 112u8, 105u8, 99u8, 34u8, 58u8];
    proof {
        assert(v@ =~= lit_topic());
    }
    v
}

/// The bytes `,"partition":` as a vector.
fn lit_partition_vec() -> (v: Vec<u8>)
    ensures
        v@ == lit_partition(),
{
    let v: Vec<u8> = vec![44u8, 34u8, 112u8, 97u8, 114u8, 116u8, 105u8, 116u8, 105u8, 111u8, 110u8, 34u8, 58u8];
    proof {
        assert(v@ =~= lit_partition());
    }
    v
}

/// The bytes `,"replicas":[` as a vector.
fn lit_replicas_vec() -> (v: Vec<u8>)
    ensures
        v@ == lit_replicas(),
{
    let v: Vec<u8> = vec![44u8, 34u8, 114u8, 101u8, 112u8, 108u8, 105u8, 99u8, 97u8, 115u8, 34u8, 58u8, 91u8];
    proof {
        assert(v@ =~= lit_replicas());
    }
    v
}

/// Whether `lit` occurs in `s` at position `i`.
fn match_at(s: &Vec<u8>, i: usize, lit: &Vec<u8>) -> (r: bool)
    ensures
        r == spec_match_at(s@, i as int, lit@),
{
    if s.len() < lit.len() || i > s.len() - lit.len() {
        return false;
    }
    let mut j: usize = 0;
    while j < lit.len()
        invariant
            i + lit@.len() <= s@.len(),
            s@.len() <= usize::MAX,
            j <= lit@.len(),
            forall|k: int| 0 <= k < j ==> s@[i + k] == lit@[k],
        decreases lit@.len() - j,
    {
        if s[i + j] != lit[j] {
            proof {
                let sub = s@.subrange(i as int, i + lit@.len());
                assert(sub[j as int] == s@[i + j]);
            }
            return false;
        }
        j += 1;
    }
    proof {
        assert(s@.subrange(i as int, i + lit@.len()) =~= lit@);
    }
    true
}

/// Digit run with accumulator, as `spec_digits` describes it.
fn digits(s: &Vec<u8>, i: usize, acc: u64) -> (r: Option<(u64, usize)>)
    requires
        i <= s@.len(),
    ensures
        match r {
            None => spec_digits(s@, i as int, acc as int) is None,
            Some((v, j)) => {
                &&& spec_digits(s@, i as int, acc as int) == Some((v, j as int))
                &&& i <= j <= s@.len()
                &&& (i < s@.len() && is_digit(s@[i as int]) ==> i < j)
            },
        },
    decreases s@.len() - i,
{
    if i < s.len() {
        let b: u8 = s[i];
        if 48 <= b && b <= 57 {
            let d: u64 = (b - 48) as u64;
            match acc.checked_mul(10) {
                Some(m) => match m.checked_add(d) {
                    Some(acc2) => digits(s, i + 1, acc2),
                    None => None,
                },
                None => None,
            }
        } else {
            Some((acc, i))
        }
    } else {
        Some((acc, i))
    }
}

/// An unsigned decimal number, as `spec_parse_u64` describes it.
fn parse_u64_at(s: &Vec<u8>, i: usize) -> (r: Option<(u64, usize)>)
    requires
        i <= s@.len(),
    ensures
        match r {
            None => spec_parse_u64(s@, i as int) is None,
            Some((v, j)) => {
                &&& spec_parse_u64(s@, i as int) == Some((v, j as int))
                &&& i < j <= s@.len()
            },
        },
{
    if i < s.len() {
        let b: u8 = s[i];
        if 48 <= b && b <= 57 {
            digits(s, i, 0)
        } else {
            None
        }
    } else {
        None
    }
}

/// A quoted topic name, as `spec_parse_string` describes it.
fn parse_string_at(s: &Vec<u8>, i: usize) -> (r: Option<(Vec<u8>, usize)>)
    requires
        i <= s@.len(),
    ensures
        match r {
            None => spec_parse_string(s@, i as int) is None,
            Some(p) => {
                &&& spec_parse_string(s@, i as int) == Some((p.0@, p.1 as int))
                &&& i < p.1 <= s@.len()
            },
        },
{
    if !(i < s.len() && s[i] == 34) {
        return None;
    }
    let mut j: usize = i + 1;
    while j < s.len() && s[j] != 34 && s[j] != 92 && s[j] >= 32
        invariant
            i + 1 <= j <= s@.len(),
            forall|k: int| i + 1 <= k < j ==> is_plain(#[trigger] s@[k]),
        decreases s@.len() - j,
    {
        j += 1;
    }
    proof {
        lemma_str_end(s@, i + 1, j as int);
    }
    if j < s.len() && s[j] == 34 {
        let mut name: Vec<u8> = Vec::new();
        let mut k: usize = i + 1;
        proof {
            assert(name@ =~= s@.subrange(i + 1, i + 1));
        }
        while k < j
            invariant
                i + 1 <= k <= j <= s@.len(),
                name@ == s@.subrange(i + 1, k as int),
            decreases j - k,
        {
            name.push(s[k]);
            proof {
                assert(name@ =~= s@.subrange(i + 1, k + 1));
            }
            k += 1;
        }
        Some((name, j + 1))
    } else {
        None
    }
}

/// The remainder of a replica list, as `spec_u64_list_tail` describes it.
fn u64_list_tail(s: &Vec<u8>, i: usize, acc: Vec<u64>) -> (r: Option<(Vec<u64>, usize)>)
    requires
        i <= s@.len(),
    ensures
        match r {
            None => spec_u64_list_tail(s@, i as int, acc@) is None,
            Some(p) => {
                &&& spec_u64_list_tail(s@, i as int, acc@) == Some((p.0@, p.1 as int))
                &&& i < p.1 <= s@.len()
            },
        },
    decreases s@.len() - i,
{
    if i < s.len() {
        let b: u8 = s[i];
        if b == 93 {
            Some((acc, i + 1))
        } else if b == 44 {
            match parse_u64_at(s, i + 1) {
                Some((v, j)) => {
                    let mut acc2 = acc;
                    acc2.push(v);
                    proof {
                        assert(acc2@ =~= acc@.push(v));
                    }
                    u64_list_tail(s, j, acc2)
                },
                None => None,
            }
        } else {
            None
        }
    } else {
        None
    }
}

/// A replica list, as `spec_u64_list` describes it.
fn parse_u64_list_at(s: &Vec<u8>, i: usize) -> (r: Option<(Vec<u64>, usize)>)
    requires
        i <= s@.len(),
    ensures
        match r {
            None => spec_u64_list(s@, i as int) is None,
            Some(p) => {
                &&& spec_u64_list(s@, i as int) == Some((p.0@, p.1 as int))
                &&& i < p.1 <= s@.len()
            },
        },
{
    if i < s.len() && s[i] == 93 {
        let empty: Vec<u64> = Vec::new();
        proof {
            assert(empty@ =~= Seq::<u64>::empty());
        }
        Some((empty, i + 1))
    } else {
        match parse_u64_at(s, i) {
            Some((v, j)) => {
                let mut acc: Vec<u64> = Vec::new();
                acc.push(v);
                proof {
                    assert(acc@ =~= seq![v]);
                }
                u64_list_tail(s, j, acc)
            },
            None => None,
        }
    }
}

/// One pending partition migration, as `spec_parse_move` describes it.
fn parse_move_at(s: &Vec<u8>, i: usize) -> (r: Option<(PartitionMove, usize)>)
    requires
        i <= s@.len(),
    ensures
        match r {
            None => spec_parse_move(s@, i as int) is None,
            Some(p) => {
                &&& spec_parse_move(s@, i as int) == Some((p.0@, p.1 as int))
                &&& i < p.1 <= s@.len()
            },
        },
{
    let n: usize = s.len();
    let l_topic = lit_topic_vec();
    if !match_at(s, i, &l_topic) {
        return None;
    }
    let (name, j) = match parse_string_at(s, i + l_topic.len()) {
        Some(p) => p,
        None => {
            return None;
        },
    };
    let l_partition = lit_partition_vec();
    if !match_at(s, j, &l_partition) {
        return None;
    }
    let (pnum, j2) = match parse_u64_at(s, j + l_partition.len()) {
        Some(p) => p,
        None => {
            return None;
        },
    };
    let l_replicas = lit_replicas_vec();
    if !match_at(s, j2, &l_replicas) {
        return None;
    }
    let (reps, j3) = match parse_u64_list_at(s, j2 + l_replicas.len()) {
        Some(p) => p,
        None => {
            return None;
        },
    };
    if j3 < n && s[j3] == 125 {
        Some((PartitionMove { topic: name, partition: pnum, replicas: reps }, j3 + 1))
    } else {
        None
    }
}

/// The partition moves of `ms`, as their models.
pub open spec fn models_of(ms: Seq<PartitionMove>) -> Seq<PartitionMoveModel> {
    ms.map_values(|p: PartitionMove| p@)
}

/// The remainder of the partition list, as `spec_move_list_tail`
/// describes it.
fn move_list_tail(s: &Vec<u8>, i: usize, acc: Vec<PartitionMove>) -> (r: Option<(Vec<PartitionMove>, usize)>)
    requires
        i <= s@.len(),
    ensures
        match r {
            None => spec_move_list_tail(s@, i as int, models_of(acc@)) is None,
            Some(p) => {
                &&& spec_move_list_tail(s@, i as int, models_of(acc@))
                    == Some((models_of(p.0@), p.1 as int))
                &&& i < p.1 <= s@.len()
            },
        },
    decreases s@.len() - i,
{
    if i < s.len() {
        let b: u8 = s[i];
        if b == 93 {
            Some((acc, i + 1))
        } else if b == 44 {
            match parse_move_at(s, i + 1) {
                Some((m, j)) => {
                    let ghost m_model = m@;
                    let mut acc2 = acc;
                    acc2.push(m);
                    proof {
                        assert(models_of(acc2@) =~= models_of(acc@).push(m_model));
                    }
                    move_list_tail(s, j, acc2)
                },
                None => None,
            }
        } else {
            None
        }
    } else {
        None
    }
}

/// The partition list, as `spec_move_list` describes it.
fn parse_move_list_at(s: &Vec<u8>, i: usize) -> (r: Option<(Vec<PartitionMove>, usize)>)
    requires
        i <= s@.len(),
    ensures
        match r {
            None => spec_move_list(s@, i as int) is None,
            Some(p) => {
                &&& spec_move_list(s@, i as int) == Some((models_of(p.0@), p.1 as int))
                &&& i < p.1 <= s@.len()
            },
        },
{
    if i < s.len() && s[i] == 93 {
        let empty: Vec<PartitionMove> = Vec::new();
        proof {
            assert(models_of(empty@) =~= Seq::<PartitionMoveModel>::empty());
        }
        Some((empty, i + 1))
    } else {
        match parse_move_at(s, i) {
            Some((m, j)) => {
                let ghost m_model = m@;
                let mut acc: Vec<PartitionMove> = Vec::new();
                acc.push(m);
                proof {
                    assert(models_of(acc@) =~= seq![m_model]);
                }
                move_list_tail(s, j, acc)
            },
            None => None,
        }
    }
}

/// Parse a whole pending-reassignment document. Returns the document
/// exactly when the bytes match the grammar stated by `spec_parse_doc`,
/// and nothing otherwise; malformed bytes are never turned into a value.
pub fn parse_reassignment_doc(s: &Vec<u8>) -> (r: Option<Reassignment>)
    ensures
        match r {
            None => spec_parse_doc(s@) is None,
            Some(d) => spec_parse_doc(s@) == Some(d@),
        },
{
    let n: usize = s.len();
    let l_version = lit_version_vec();
    if !match_at(s, 0, &l_version) {
        return None;
    }
    let (version, j) = match parse_u64_at(s, l_version.len()) {
        Some(p) => p,
        None => {
            return None;
        },
    };
    let l_partitions = lit_partitions_vec();
    if !match_at(s, j, &l_partitions) {
        return None;
    }
    let (moves, j2) = match parse_move_list_at(s, j + l_partitions.len()) {
        Some(p) => p,
        None => {
            return None;
        },
    };
    if j2 < n && s[j2] == 125 && j2 + 1 == n {
        let d = Reassignment { version, partitions: moves };
        proof {
            assert(d@.partitions =~= models_of(moves@));
        }
        Some(d)
    } else {
        None
    }
}

} // verus!
