//! The artifact store: named proof artifacts with their metadata.
//!
//! Each artifact persists as two records under its name, a payload and a
//! metadata record. The store keeps, per name, what is there of the two; an
//! artifact can be loaded only when both are.

use vstd::prelude::*;
use crate::chars::same_text;

verus! {

/// What is needed to reload and re-verify an artifact.
#[derive(Debug, Clone, PartialEq, Eq)]
pub struct Metadata {
    /// The scheme parameters in effect.
    pub params: String,
    /// The root of the verification-data set.
    pub vds_root: String,
    /// The artifact's identifier.
    pub id: String,
}

/// The mathematical content of a `Metadata`.
pub struct MetadataView {
    pub params: Seq<char>,
    pub vds_root: Seq<char>,
    pub id: Seq<char>,
}

impl View for Metadata {
    type V = MetadataView;

    open spec fn view(&self) -> MetadataView {
        MetadataView { params: self.params@, vds_root: self.vds_root@, id: self.id@ }
    }
}

impl Metadata {
    /// A copy of this record.
    pub fn duplicate(&self) -> (copy: Metadata)
        ensures
            copy@ == self@,
    {
        Metadata {
            params: self.params.clone(),
            vds_root: self.vds_root.clone(),
            id: self.id.clone(),
        }
    }
}

/// An artifact of the proof backend: an opaque payload and its metadata.
#[derive(Debug, Clone, PartialEq, Eq)]
pub struct ProofArtifact {
    pub payload: String,
    pub metadata: Metadata,
}

/// The mathematical content of a `ProofArtifact`.
pub struct ArtifactView {
    pub payload: Seq<char>,
    pub metadata: MetadataView,
}

impl View for ProofArtifact {
    type V = ArtifactView;

    open spec fn view(&self) -> ArtifactView {
        ArtifactView { payload: self.payload@, metadata: self.metadata@ }
    }
}

impl ProofArtifact {
    /// A copy of this artifact.
    pub fn duplicate(&self) -> (copy: ProofArtifact)
        ensures
            copy@ == self@,
    {
        ProofArtifact { payload: self.payload.clone(), metadata: self.metadata.duplicate() }
    }
}

/// Why an artifact could not be loaded.
#[derive(Debug, Clone, Copy, PartialEq, Eq, Structural)]
pub enum StoreFault {
    /// Neither record is there.
    Missing,
    /// Only one of the two records is there.
    Corrupt,
}

/// The records kept under one name.
pub struct SlotView {
    pub payload: Option<Seq<char>>,
    pub metadata: Option<MetadataView>,
}

/// The records of a complete artifact.
pub open spec fn complete(a: ArtifactView) -> SlotView {
    SlotView { payload: Some(a.payload), metadata: Some(a.metadata) }
}

/// What loading `name` from the records `m` gives.
pub open spec fn loaded(m: Map<Seq<char>, SlotView>, name: Seq<char>) -> Result<
    ArtifactView,
    StoreFault,
> {
    if !m.dom().contains(name) {
        Err(StoreFault::Missing)
    } else {
        match (m[name].payload, m[name].metadata) {
            (Some(payload), Some(metadata)) => Ok(ArtifactView { payload, metadata }),
            (None, None) => Err(StoreFault::Missing),
            _ => Err(StoreFault::Corrupt),
        }
    }
}

/// An artifact that was saved is loaded back as it was saved, whatever the
/// store held before.
pub proof fn lemma_save_then_load(m: Map<Seq<char>, SlotView>, name: Seq<char>, a: ArtifactView)
    ensures
        loaded(m.insert(name, complete(a)), name) == Ok::<ArtifactView, StoreFault>(a),
{
}

/// Saving under one name leaves what is loaded under another unchanged.
pub proof fn lemma_save_leaves_others(
    m: Map<Seq<char>, SlotView>,
    name: Seq<char>,
    a: ArtifactView,
    other: Seq<char>,
)
    requires
        other != name,
    ensures
        loaded(m.insert(name, complete(a)), other) == loaded(m, other),
{
}

/// From a store that holds nothing, every name is missing.
pub proof fn lemma_empty_store_misses(name: Seq<char>)
    ensures
        loaded(Map::empty(), name) == Err::<ArtifactView, StoreFault>(StoreFault::Missing),
{
}

struct Slot {
    name: String,
    payload: Option<String>,
    metadata: Option<Metadata>,
}

impl View for Slot {
    type V = SlotView;

    closed spec fn view(&self) -> SlotView {
        SlotView {
            payload: match self.payload {
                Some(p) => Some(p@),
                None => None,
            },
            metadata: match self.metadata {
                Some(m) => Some(m@),
                None => None,
            },
        }
    }
}

/// The records that a list of slots stands for: a later slot replaces an
/// earlier one of the same name.
spec fn records(slots: Seq<Slot>) -> Map<Seq<char>, SlotView>
    decreases slots.len(),
{
    if slots.len() == 0 {
        Map::empty()
    } else {
        records(slots.drop_last()).insert(slots.last().name@, slots.last()@)
    }
}

proof fn lemma_records_absent(slots: Seq<Slot>, name: Seq<char>)
    requires
        forall|j: int| 0 <= j < slots.len() ==> (#[trigger] slots[j]).name@ != name,
    ensures
        !records(slots).dom().contains(name),
    decreases slots.len(),
{
    if slots.len() > 0 {
        assert(slots.last() == slots[slots.len() - 1]);
        assert forall|j: int| 0 <= j < slots.drop_last().len() implies (
        #[trigger] slots.drop_last()[j]).name@ != name by {
            assert(slots.drop_last()[j] == slots[j]);
        }
        lemma_records_absent(slots.drop_last(), name);
    }
}

proof fn lemma_records_last_match(slots: Seq<Slot>, i: int, name: Seq<char>)
    requires
        0 <= i < slots.len(),
        slots[i].name@ == name,
        forall|j: int| i < j < slots.len() ==> (#[trigger] slots[j]).name@ != name,
    ensures
        records(slots).dom().contains(name),
        records(slots)[name] == slots[i]@,
    decreases slots.len(),
{
    if i < slots.len() - 1 {
        assert(slots.last() == slots[slots.len() - 1]);
        assert forall|j: int| i < j < slots.drop_last().len() implies (
        #[trigger] slots.drop_last()[j]).name@ != name by {
            assert(slots.drop_last()[j] == slots[j]);
        }
        lemma_records_last_match(slots.drop_last(), i, name);
    }
}

proof fn lemma_records_replace(slots: Seq<Slot>, i: int, slot: Slot)
    requires
        0 <= i < slots.len(),
        slots[i].name@ == slot.name@,
        forall|j: int| i < j < slots.len() ==> (#[trigger] slots[j]).name@ != slot.name@,
    ensures
        records(slots.update(i, slot)) == records(slots).insert(slot.name@, slot@),
    decreases slots.len(),
{
    let d = slots.drop_last();
    let u = slots.update(i, slot);
    if i == slots.len() - 1 {
        assert(u.drop_last() =~= d);
        assert(records(u) =~= records(slots).insert(slot.name@, slot@));
    } else {
        assert(slots.last() == slots[slots.len() - 1]);
        assert forall|j: int| i < j < d.len() implies (#[trigger] d[j]).name@ != slot.name@ by {
            assert(d[j] == slots[j]);
        }
        lemma_records_replace(d, i, slot);
        assert(u.drop_last() =~= d.update(i, slot));
        assert(u.last() == slots.last());
        assert(records(u) =~= records(slots).insert(slot.name@, slot@));
    }
}

/// A keyed store of artifacts.
pub struct ArtifactStore {
    slots: Vec<Slot>,
}

impl View for ArtifactStore {
    type V = Map<Seq<char>, SlotView>;

    closed spec fn view(&self) -> Map<Seq<char>, SlotView> {
        records(self.slots@)
    }
}

impl ArtifactStore {
    /// A store that holds nothing.
    pub fn new() -> (store: ArtifactStore)
        ensures
            store@ == Map::<Seq<char>, SlotView>::empty(),
    {
        ArtifactStore { slots: Vec::new() }
    }

    /// The index of the slot that stands for `name`, if there is one: the
    /// last slot of that name.
    fn position(&self, name: &str) -> (found: Option<usize>)
        ensures
            match found {
                Some(i) => {
                    &&& i < self.slots.len()
                    &&& self.slots@[i as int].name@ == name@
                    &&& forall|j: int|
                        i < j < self.slots.len() ==> (#[trigger] self.slots@[j]).name@ != name@
                    &&& self@.dom().contains(name@)
                    &&& self@[name@] == self.slots@[i as int]@
                },
                None => !self@.dom().contains(name@),
            },
    {
        let mut i: usize = self.slots.len();
        while i > 0
            invariant
                i <= self.slots.len(),
                forall|j: int| i <= j < self.slots.len() ==> (#[trigger] self.slots@[j]).name@ != name@,
            decreases i,
        {
            i = i - 1;
            if same_text(self.slots[i].name.as_str(), name) {
                proof {
                    lemma_records_last_match(self.slots@, i as int, name@);
                }
                return Some(i);
            }
        }
        proof {
            lemma_records_absent(self.slots@, name@);
        }
        None
    }

    /// Puts a slot under its name, in place of what was there.
    fn put(&mut self, slot: Slot)
        ensures
            final(self)@ == old(self)@.insert(slot.name@, slot@),
    {
        match self.position(slot.name.as_str()) {
            Some(i) => {
                proof {
                    lemma_records_replace(self.slots@, i as int, slot);
                }
                self.slots.set(i, slot);
            },
            None => {
                let ghost before = self.slots@;
                self.slots.push(slot);
                assert(self.slots@.drop_last() =~= before);
            },
        }
    }

    /// Saves an artifact under `name`, replacing both records of an earlier
    /// one at once.
    pub fn save(&mut self, name: &str, artifact: ProofArtifact)
        ensures
            final(self)@ == old(self)@.insert(name@, complete(artifact@)),
    {
        let slot = Slot {
            name: name.to_owned(),
            payload: Some(artifact.payload),
            metadata: Some(artifact.metadata),
        };
        self.put(slot);
    }

    /// Records what durable storage holds under `name`: each of the two
    /// records, as far as it is there.
    pub fn restore(&mut self, name: &str, payload: Option<String>, metadata: Option<Metadata>)
        ensures
            final(self)@ == old(self)@.insert(
                name@,
                (SlotView {
                    payload: match payload {
                        Some(p) => Some(p@),
                        None => None,
                    },
                    metadata: match metadata {
                        Some(m) => Some(m@),
                        None => None,
                    },
                }),
            ),
    {
        let slot = Slot { name: name.to_owned(), payload, metadata };
        self.put(slot);
    }

    /// Loads the artifact saved under `name`.
    ///
    /// Fails with `Missing` when neither record is there, and with `Corrupt`
    /// when only one is.
    pub fn load(&self, name: &str) -> (r: Result<ProofArtifact, StoreFault>)
        ensures
            match r {
                Ok(artifact) => loaded(self@, name@) == Ok::<ArtifactView, StoreFault>(artifact@),
                Err(fault) => loaded(self@, name@) == Err::<ArtifactView, StoreFault>(fault),
            },
    {
        match self.position(name) {
            None => Err(StoreFault::Missing),
            Some(i) => {
                let slot = &self.slots[i];
                match (&slot.payload, &slot.metadata) {
                    (Some(payload), Some(metadata)) => Ok(
                        ProofArtifact { payload: payload.clone(), metadata: metadata.duplicate() },
                    ),
                    (None, None) => Err(StoreFault::Missing),
                    _ => Err(StoreFault::Corrupt),
                }
            },
        }
    }
}

} // verus!
