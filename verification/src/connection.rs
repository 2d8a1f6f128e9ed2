//! Connection values: the identifier pair of an edge and the derived weight.
//!
//! Edges are stored on the neurons themselves (see [`crate::neuron`]); the
//! types here describe a single connection as a value. The weight is never
//! stored: for a definition it is the reciprocal of the source neuron's
//! duplicate counter, which normalises frequent values down.

use vstd::prelude::*;

use crate::neuron::{ConnectionKind, NeuronId};
use crate::num::SCALE;

verus! {

/// The identifier of a connection: the identifiers of its endpoints.
#[derive(Debug)]
pub struct ConnectionID {
    pub from: NeuronId,
    pub to: NeuronId,
}

/// A flat connection between two neurons, without a kind of its own.
#[derive(Debug)]
pub struct SimpleConnection {
    pub from: NeuronId,
    pub to: NeuronId,
}

impl SimpleConnection {
    /// A connection value from its endpoints.
    pub fn new(from: NeuronId, to: NeuronId) -> (r: SimpleConnection)
        ensures
            r.from@ == from@,
            r.to@ == to@,
    {
        SimpleConnection { from, to }
    }

    /// The source endpoint.
    pub fn from(&self) -> (r: NeuronId)
        ensures
            r@ == self.from@,
    {
        self.from.duplicate()
    }

    /// The target endpoint.
    pub fn to(&self) -> (r: NeuronId)
        ensures
            r@ == self.to@,
    {
        self.to.duplicate()
    }
}

/// The kind of a connection between a sensor end and a non-sensor end:
/// sensor to object is a definition, object to sensor an explanation, and
/// two ends of the same nature carry no meaning here.
pub open spec fn spec_flat_kind(from_is_sensor: bool, to_is_sensor: bool) -> ConnectionKind {
    if from_is_sensor {
        if to_is_sensor {
            ConnectionKind::Dummy
        } else {
            ConnectionKind::Definition
        }
    } else {
        if to_is_sensor {
            ConnectionKind::Explanation
        } else {
            ConnectionKind::Dummy
        }
    }
}

/// The derived weight of a connection, in millionths: `1 / counter(from)`
/// for a definition, `1.0` for an explanation, `0` otherwise.
pub open spec fn spec_weight(kind: ConnectionKind, from_counter: int) -> int {
    match kind {
        ConnectionKind::Definition => SCALE as int / from_counter,
        ConnectionKind::Explanation => SCALE as int,
        _ => 0,
    }
}

/// A connection for flat structures: the kind follows from which endpoint
/// is a sensor.
#[derive(Debug)]
pub struct SimpleAGDSConnection {
    pub from: NeuronId,
    pub from_is_sensor: bool,
    pub to: NeuronId,
    pub to_is_sensor: bool,
}

impl SimpleAGDSConnection {
    /// A connection value from its endpoints.
    pub fn new(from: NeuronId, from_is_sensor: bool, to: NeuronId, to_is_sensor: bool) -> (r:
        SimpleAGDSConnection)
        ensures
            r.from@ == from@,
            r.to@ == to@,
            r.from_is_sensor == from_is_sensor,
            r.to_is_sensor == to_is_sensor,
    {
        SimpleAGDSConnection { from, from_is_sensor, to, to_is_sensor }
    }

    /// The identifier pair of this connection.
    pub fn id(&self) -> (r: ConnectionID)
        ensures
            r.from@ == self.from@,
            r.to@ == self.to@,
    {
        ConnectionID { from: self.from.duplicate(), to: self.to.duplicate() }
    }

    /// The source endpoint.
    pub fn from(&self) -> (r: NeuronId)
        ensures
            r@ == self.from@,
    {
        self.from.duplicate()
    }

    /// The target endpoint.
    pub fn to(&self) -> (r: NeuronId)
        ensures
            r@ == self.to@,
    {
        self.to.duplicate()
    }

    /// The kind derived from the endpoints' natures.
    pub fn kind(&self) -> (r: ConnectionKind)
        ensures
            r == spec_flat_kind(self.from_is_sensor, self.to_is_sensor),
    {
        if self.from_is_sensor {
            if self.to_is_sensor {
                ConnectionKind::Dummy
            } else {
                ConnectionKind::Definition
            }
        } else {
            if self.to_is_sensor {
                ConnectionKind::Explanation
            } else {
                ConnectionKind::Dummy
            }
        }
    }

    /// The derived weight, given the current counter of the source neuron.
    pub fn weight(&self, from_counter: u64) -> (r: i64)
        requires
            from_counter >= 1,
        ensures
            r == spec_weight(spec_flat_kind(self.from_is_sensor, self.to_is_sensor),
                from_counter as int),
    {
        match self.kind() {
            ConnectionKind::Definition => ((SCALE as i128) / (from_counter as i128)) as i64,
            ConnectionKind::Explanation => SCALE,
            _ => 0,
        }
    }
}

/// A connection for hierarchical structures, carrying its kind; only
/// definitions and explanations are representable.
#[derive(Debug)]
pub struct SimpleMAGDSConnection {
    pub from: NeuronId,
    pub to: NeuronId,
    pub kind: ConnectionKind,
}

impl SimpleMAGDSConnection {
    /// A connection value of the given kind.
    ///
    /// Only `Definition` and `Explanation` are meaningful here; the
    /// remaining kinds are reserved and not accepted.
    pub fn new(from: NeuronId, to: NeuronId, kind: ConnectionKind) -> (r: SimpleMAGDSConnection)
        requires
            kind == ConnectionKind::Definition || kind == ConnectionKind::Explanation,
        ensures
            r.from@ == from@,
            r.to@ == to@,
            r.kind == kind,
    {
        SimpleMAGDSConnection { from, to, kind }
    }

    /// The identifier pair of this connection.
    pub fn id(&self) -> (r: ConnectionID)
        ensures
            r.from@ == self.from@,
            r.to@ == self.to@,
    {
        ConnectionID { from: self.from.duplicate(), to: self.to.duplicate() }
    }

    /// The source endpoint.
    pub fn from(&self) -> (r: NeuronId)
        ensures
            r@ == self.from@,
    {
        self.from.duplicate()
    }

    /// The target endpoint.
    pub fn to(&self) -> (r: NeuronId)
        ensures
            r@ == self.to@,
    {
        self.to.duplicate()
    }

    /// The stored kind.
    pub fn kind(&self) -> (r: ConnectionKind)
        ensures
            r == self.kind,
    {
        self.kind
    }

    /// The derived weight, given the current counter of the source neuron.
    pub fn weight(&self, from_counter: u64) -> (r: i64)
        requires
            from_counter >= 1,
        ensures
            r == spec_weight(self.kind, from_counter as int),
    {
        match self.kind {
            ConnectionKind::Definition => ((SCALE as i128) / (from_counter as i128)) as i64,
            ConnectionKind::Explanation => SCALE,
            _ => 0,
        }
    }
}

} // verus!
