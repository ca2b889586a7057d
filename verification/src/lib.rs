//! Telemetry ingestion from a publish/subscribe bus into a relational
//! time-series store.
//!
//! The pipeline has two halves. A subscriber turns bus events into
//! [`Envelope`] values; a strictly sequential writer resolves each
//! envelope's topic to a sensor, decodes the payload
//! ([`json::decode`]), resolves its freshness field to a UTC instant
//! ([`timestamp::parse_rfc3339`]), and either commits one atomic batch
//! of table writes or leaves the store untouched
//! ([`writer::spec_step`]). The store itself is modelled in
//! [`store::StoreModel`]; a driver around this crate performs the same
//! plan against the real store, one transaction per message.

pub mod reading;
pub mod timestamp;
pub mod utf8check;
pub mod json;
pub mod credentials;
pub mod store;
pub mod writer;

use vstd::prelude::*;

verus! {

/// An envelope carries one bus event from the subscriber to the writer:
/// the topic it was published on and the raw payload bytes.
#[derive(Clone, Debug)]
pub struct Envelope {
    pub topic: Vec<u8>,
    pub payload: Vec<u8>,
}

/// The mathematical value of an envelope.
pub struct EnvelopeV {
    pub topic: Seq<u8>,
    pub payload: Seq<u8>,
}

impl View for Envelope {
    type V = EnvelopeV;

    open spec fn view(&self) -> EnvelopeV {
        EnvelopeV { topic: self.topic@, payload: self.payload@ }
    }
}

impl Envelope {
    pub fn new(topic: Vec<u8>, payload: Vec<u8>) -> (e: Envelope)
        ensures
            e.topic@ == topic@,
            e.payload@ == payload@,
    {
        Envelope { topic, payload }
    }
}

} // verus!
