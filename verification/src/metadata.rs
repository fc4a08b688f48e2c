//! Data model of the cached cluster metadata: cluster identifiers, resource
//! kinds, per-kind snapshots, and the pending-reassignment document.

use vstd::prelude::*;

verus! {

/// Stable identifier of one configured cluster, the cache's primary
/// partition key. The surrounding application maps configured cluster
/// names to these identifiers once at startup.
#[derive(Clone, Copy, PartialEq, Eq, Structural, Debug)]
pub struct ClusterId(pub u64);

/// The category of cached metadata. Each `(ClusterId, ResourceKind)` pair
/// identifies one cache entry.
#[derive(Clone, Copy, PartialEq, Eq, Structural, Debug)]
pub enum ResourceKind {
    Brokers,
    Topics,
    Groups,
    Reassignment,
}

/// One cache key: a cluster together with a resource kind.
#[derive(Clone, Copy, PartialEq, Eq, Structural, Debug)]
pub struct Key {
    pub cluster: ClusterId,
    pub kind: ResourceKind,
}

/// One topic as reported by the metadata fetcher.
#[derive(Clone, Debug, PartialEq)]
pub struct TopicInfo {
    pub name: Vec<u8>,
    pub partitions: u64,
}

/// One committed offset of a consumer group.
#[derive(Clone, Debug, PartialEq)]
pub struct GroupOffset {
    pub topic: Vec<u8>,
    pub partition: u64,
    pub offset: u64,
}

/// One consumer group and its committed offsets.
#[derive(Clone, Debug, PartialEq)]
pub struct GroupInfo {
    pub name: Vec<u8>,
    pub offsets: Vec<GroupOffset>,
}

/// One pending partition migration: the partition and the replica list it
/// is moving to.
#[derive(Clone, Debug, PartialEq)]
pub struct PartitionMove {
    pub topic: Vec<u8>,
    pub partition: u64,
    pub replicas: Vec<u64>,
}

/// A pending partition-reassignment document read from the coordination
/// service. Absence of a document means "no reassignment in progress",
/// which the cache stores as a defined value, not as an error.
#[derive(Clone, Debug, PartialEq)]
pub struct Reassignment {
    pub version: u64,
    pub partitions: Vec<PartitionMove>,
}

/// Mathematical model of a `PartitionMove`.
pub struct PartitionMoveModel {
    pub topic: Seq<u8>,
    pub partition: u64,
    pub replicas: Seq<u64>,
}

/// Mathematical model of a `Reassignment`.
pub struct ReassignmentModel {
    pub version: u64,
    pub partitions: Seq<PartitionMoveModel>,
}

impl View for PartitionMove {
    type V = PartitionMoveModel;

    open spec fn view(&self) -> PartitionMoveModel {
        PartitionMoveModel {
            topic: self.topic@,
            partition: self.partition,
            replicas: self.replicas@,
        }
    }
}

impl View for Reassignment {
    type V = ReassignmentModel;

    open spec fn view(&self) -> ReassignmentModel {
        ReassignmentModel {
            version: self.version,
            partitions: self.partitions@.map_values(|p: PartitionMove| p@),
        }
    }
}

/// The last successfully fetched value of one cache entry, typed per
/// resource kind.
#[derive(Clone, Debug, PartialEq)]
pub enum Snapshot {
    /// Identifiers of the cluster's live brokers.
    Brokers(Vec<u64>),
    /// The cluster's topics.
    Topics(Vec<TopicInfo>),
    /// The cluster's consumer groups with their offsets.
    Groups(Vec<GroupInfo>),
    /// The pending reassignment, `None` when no document is present.
    Reassignment(Option<Reassignment>),
}

/// Outcome of one fetch-collaborator invocation, as handed to the cache.
/// A failure carries no value: the cache retains the previous snapshot.
#[derive(Debug)]
pub enum FetchResult {
    Success(Snapshot),
    Failure,
}

/// One message flowing through a tailed topic.
#[derive(Clone, Debug, PartialEq)]
pub struct Message {
    pub offset: u64,
    pub payload: Vec<u8>,
}

} // verus!
