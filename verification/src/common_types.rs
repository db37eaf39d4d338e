//! Identifiers and the impression / conversion records that flow through the
//! evaluation engine.

use vstd::prelude::*;

verus! {

pub type Timestamp = u64;

pub type EpochId = u64;

pub type ActionId = u64;

pub type UriId = u32;

pub type DeviceId = u64;

pub type BucketKey = u64;

/// A site: a numeric identifier plus whether the site belongs to the attacker.
#[derive(Debug, Clone, Copy, PartialEq, Eq, Structural)]
pub struct Uri {
    pub id: UriId,
    pub malicious: bool,
}

impl Uri {
    pub fn benign(id: UriId) -> (uri: Self)
        ensures
            uri.id == id,
            !uri.malicious,
    {
        Self { malicious: false, id }
    }

    pub fn malicious(id: UriId) -> (uri: Self)
        ensures
            uri.id == id,
            uri.malicious,
    {
        Self { malicious: true, id }
    }
}

/// The 64-bit key under which a site is stored in integer-keyed tables: the
/// identifier in the low 32 bits and the malicious flag in bit 32.
pub open spec fn uri_key(uri: Uri) -> u64 {
    if uri.malicious {
        (uri.id + 0x1_0000_0000) as u64
    } else {
        uri.id as u64
    }
}

pub proof fn lemma_uri_key_injective(a: Uri, b: Uri)
    ensures
        uri_key(a) == uri_key(b) <==> a == b,
{
}

pub fn key_of(uri: Uri) -> (key: u64)
    ensures
        key == uri_key(uri),
{
    let id: u64 = uri.id as u64;
    if uri.malicious {
        id + 0x1_0000_0000
    } else {
        id
    }
}

/// `write_u64` on the hasher, with the site's key.
#[verifier::external_body]
fn hash_key<H: std::hash::Hasher>(key: u64, state: &mut H) {
    state.write_u64(key);
}

impl std::hash::Hash for Uri {
    /// A site hashes as its 64-bit key, written in one piece.
    fn hash<H: std::hash::Hasher>(&self, state: &mut H) {
        hash_key(key_of(*self), state);
    }
}

/// Whether `uri` occurs in `uris`.
pub fn contains_uri(uris: &Vec<Uri>, uri: Uri) -> (found: bool)
    ensures
        found == uris@.contains(uri),
{
    let mut i: usize = 0;
    while i < uris.len()
        invariant
            i <= uris.len(),
            forall|j: int| 0 <= j < i ==> uris@[j] != uri,
        decreases uris.len() - i,
    {
        if uris[i] == uri {
            assert(uris@[i as int] == uri);
            return true;
        }
        i = i + 1;
    }
    false
}

/// A copy of a list of sites, element by element.
pub fn copy_uris(uris: &Vec<Uri>) -> (copy: Vec<Uri>)
    ensures
        copy@ == uris@,
{
    let mut copy: Vec<Uri> = Vec::new();
    let mut i: usize = 0;
    while i < uris.len()
        invariant
            i <= uris.len(),
            copy@ == uris@.subrange(0, i as int),
        decreases uris.len() - i,
    {
        copy.push(uris[i]);
        i = i + 1;
        assert(copy@ =~= uris@.subrange(0, i as int));
    }
    assert(copy@ =~= uris@);
    copy
}

/// The identifier of a privacy filter on a device: which budget is charged.
#[derive(Debug, Clone, Copy, PartialEq, Eq, Structural, Hash)]
pub enum FilterId {
    /// A querier's own budget in an epoch.
    PerQuerier(EpochId, Uri),
    /// The device-wide budget of an epoch.
    Global(EpochId),
    /// The quota of a conversion (trigger) site in an epoch.
    TriggerQuota(EpochId, Uri),
    /// The quota of an impression (source) site in an epoch.
    SourceQuota(EpochId, Uri),
}

/// The sites attached to an impression event.
#[derive(Debug, Clone, PartialEq, Eq)]
pub struct EventUris {
    pub source_uri: Uri,
    pub trigger_uris: Vec<Uri>,
    pub querier_uris: Vec<Uri>,
}

/// An impression event as registered on a device.
#[derive(Debug, Clone, PartialEq, Eq)]
pub struct Event {
    pub id: u64,
    pub timestamp: Timestamp,
    pub epoch_number: EpochId,
    pub histogram_index: BucketKey,
    pub uris: EventUris,
    pub user_action_id: Option<ActionId>,
    pub filter_data: u64,
}

#[derive(Debug, Clone, PartialEq, Eq)]
pub struct Impression {
    pub device_id: DeviceId,
    pub event: Event,
}

/// A conversion: a querier asks for a report about the impressions of a
/// device. `source_uris` of `None` means "use the querier's own sources".
#[derive(Debug, Clone, PartialEq, Eq)]
pub struct Conversion {
    pub querier: Uri,
    pub epoch_id: EpochId,
    pub timestamp: Timestamp,
    pub device_id: DeviceId,
    pub user_action_id: Option<ActionId>,
    pub source_uris: Option<Vec<Uri>>,
}

/// The contents of an event, with its site lists as sequences.
pub struct EventView {
    pub id: u64,
    pub timestamp: Timestamp,
    pub epoch_number: EpochId,
    pub histogram_index: BucketKey,
    pub source_uri: Uri,
    pub trigger_uris: Seq<Uri>,
    pub querier_uris: Seq<Uri>,
    pub user_action_id: Option<ActionId>,
    pub filter_data: u64,
}

impl View for Event {
    type V = EventView;

    open spec fn view(&self) -> EventView {
        EventView {
            id: self.id,
            timestamp: self.timestamp,
            epoch_number: self.epoch_number,
            histogram_index: self.histogram_index,
            source_uri: self.uris.source_uri,
            trigger_uris: self.uris.trigger_uris@,
            querier_uris: self.uris.querier_uris@,
            user_action_id: self.user_action_id,
            filter_data: self.filter_data,
        }
    }
}

/// The contents of an impression.
pub struct ImpressionView {
    pub device_id: DeviceId,
    pub event: EventView,
}

impl View for Impression {
    type V = ImpressionView;

    open spec fn view(&self) -> ImpressionView {
        ImpressionView { device_id: self.device_id, event: self.event@ }
    }
}

/// The contents of a conversion, with its site list as a sequence.
pub struct ConversionView {
    pub querier: Uri,
    pub epoch_id: EpochId,
    pub timestamp: Timestamp,
    pub device_id: DeviceId,
    pub user_action_id: Option<ActionId>,
    pub source_uris: Option<Seq<Uri>>,
}

impl View for Conversion {
    type V = ConversionView;

    open spec fn view(&self) -> ConversionView {
        ConversionView {
            querier: self.querier,
            epoch_id: self.epoch_id,
            timestamp: self.timestamp,
            device_id: self.device_id,
            user_action_id: self.user_action_id,
            source_uris: match self.source_uris {
                Some(uris) => Some(uris@),
                None => None,
            },
        }
    }
}

impl Conversion {
    /// A field-by-field copy.
    pub fn duplicate(&self) -> (copy: Self)
        ensures
            copy@ == self@,
    {
        let source_uris = match &self.source_uris {
            Some(uris) => Some(copy_uris(uris)),
            None => None,
        };
        Conversion {
            querier: self.querier,
            epoch_id: self.epoch_id,
            timestamp: self.timestamp,
            device_id: self.device_id,
            user_action_id: self.user_action_id,
            source_uris,
        }
    }
}

impl Impression {
    pub fn uris(&self) -> (uris: &EventUris)
        ensures
            *uris == self.event.uris,
    {
        &self.event.uris
    }
}

/// Common accessors over impressions and conversions.
pub trait ImpOrConv {
    fn device_id(&self) -> DeviceId;

    fn epoch_id(&self) -> EpochId;

    fn timestamp(&self) -> Timestamp;

    fn user_action_id(&self) -> Option<ActionId>;
}

impl ImpOrConv for Impression {
    fn device_id(&self) -> (d: DeviceId)
        ensures
            d == self.device_id,
    {
        self.device_id
    }

    fn epoch_id(&self) -> (e: EpochId)
        ensures
            e == self.event.epoch_number,
    {
        self.event.epoch_number
    }

    fn timestamp(&self) -> (t: Timestamp)
        ensures
            t == self.event.timestamp,
    {
        self.event.timestamp
    }

    fn user_action_id(&self) -> (u: Option<ActionId>)
        ensures
            u == self.event.user_action_id,
    {
        self.event.user_action_id
    }
}

impl ImpOrConv for Conversion {
    fn device_id(&self) -> (d: DeviceId)
        ensures
            d == self.device_id,
    {
        self.device_id
    }

    fn epoch_id(&self) -> (e: EpochId)
        ensures
            e == self.epoch_id,
    {
        self.epoch_id
    }

    fn timestamp(&self) -> (t: Timestamp)
        ensures
            t == self.timestamp,
    {
        self.timestamp
    }

    fn user_action_id(&self) -> (u: Option<ActionId>)
        ensures
            u == self.user_action_id,
    {
        self.user_action_id
    }
}

} // verus!
