//! Flow control limits of a connection (RFC 9000 Section 4).

use crate::stream::StreamType;
use crate::time::max_int;
use crate::transport::{declared, value_or, TransportParameters};
use vstd::prelude::*;

verus! {

/// Flow control limits for a connection
#[derive(Debug, Clone, Copy, PartialEq, Eq, Structural)]
pub struct FlowControlLimits {
    /// Maximum data that can be sent on the connection
    pub max_data: u64,
    /// Current data sent on the connection
    pub data_sent: u64,
    /// Maximum data that can be received on the connection
    pub max_data_recv: u64,
    /// Current data received on the connection
    pub data_recv: u64,
    /// Maximum number of bidirectional streams
    pub max_streams_bidi: u64,
    /// Maximum number of unidirectional streams
    pub max_streams_uni: u64,
    /// Current number of bidirectional streams
    pub streams_bidi_count: u64,
    /// Current number of unidirectional streams
    pub streams_uni_count: u64,
}

impl FlowControlLimits {
    /// The limits that transport parameters set.
    pub open spec fn from_params(p: TransportParameters) -> FlowControlLimits {
        FlowControlLimits {
            max_data: declared(p.initial_max_data, 0),
            data_sent: 0,
            max_data_recv: declared(p.initial_max_data, 0),
            data_recv: 0,
            max_streams_bidi: declared(p.initial_max_streams_bidi, 0),
            max_streams_uni: declared(p.initial_max_streams_uni, 0),
            streams_bidi_count: 0,
            streams_uni_count: 0,
        }
    }

    /// Create new flow control limits from transport parameters
    pub fn new(transport_params: &TransportParameters) -> (r: FlowControlLimits)
        ensures
            r == FlowControlLimits::from_params(*transport_params),
    {
        FlowControlLimits {
            max_data: value_or(transport_params.initial_max_data, 0),
            data_sent: 0,
            max_data_recv: value_or(transport_params.initial_max_data, 0),
            data_recv: 0,
            max_streams_bidi: value_or(transport_params.initial_max_streams_bidi, 0),
            max_streams_uni: value_or(transport_params.initial_max_streams_uni, 0),
            streams_bidi_count: 0,
            streams_uni_count: 0,
        }
    }

    /// Check if we can send the specified amount of data
    pub fn can_send_data(&self, amount: u64) -> (r: bool)
        ensures
            r == (self.data_sent + amount <= self.max_data),
    {
        match self.data_sent.checked_add(amount) {
            Some(total) => total <= self.max_data,
            None => false,
        }
    }

    /// Record data sent on the connection
    pub fn record_data_sent(&mut self, amount: u64)
        requires
            old(self).data_sent + amount <= u64::MAX,
        ensures
            *final(self) == (FlowControlLimits {
                data_sent: (old(self).data_sent + amount) as u64,
                ..*old(self)
            }),
    {
        self.data_sent += amount;
    }

    /// Record data received on the connection
    pub fn record_data_recv(&mut self, amount: u64)
        requires
            old(self).data_recv + amount <= u64::MAX,
        ensures
            *final(self) == (FlowControlLimits {
                data_recv: (old(self).data_recv + amount) as u64,
                ..*old(self)
            }),
    {
        self.data_recv += amount;
    }

    /// The number of streams of a type.
    pub open spec fn streams(self, stream_type: StreamType) -> u64 {
        match stream_type {
            StreamType::Bidirectional => self.streams_bidi_count,
            StreamType::Unidirectional => self.streams_uni_count,
        }
    }

    /// The limit on the number of streams of a type.
    pub open spec fn max_streams(self, stream_type: StreamType) -> u64 {
        match stream_type {
            StreamType::Bidirectional => self.max_streams_bidi,
            StreamType::Unidirectional => self.max_streams_uni,
        }
    }

    /// Check if we can open a new stream of the specified type
    pub fn can_open_stream(&self, stream_type: StreamType) -> (r: bool)
        ensures
            r == (self.streams(stream_type) < self.max_streams(stream_type)),
    {
        match stream_type {
            StreamType::Bidirectional => self.streams_bidi_count < self.max_streams_bidi,
            StreamType::Unidirectional => self.streams_uni_count < self.max_streams_uni,
        }
    }

    /// The limits after a stream was opened.
    pub open spec fn opened(self, stream_type: StreamType) -> FlowControlLimits {
        match stream_type {
            StreamType::Bidirectional => FlowControlLimits {
                streams_bidi_count: (self.streams_bidi_count + 1) as u64,
                ..self
            },
            StreamType::Unidirectional => FlowControlLimits {
                streams_uni_count: (self.streams_uni_count + 1) as u64,
                ..self
            },
        }
    }

    /// Record a new stream being opened
    pub fn record_stream_opened(&mut self, stream_type: StreamType)
        requires
            old(self).streams(stream_type) < u64::MAX,
        ensures
            *final(self) == old(self).opened(stream_type),
    {
        match stream_type {
            StreamType::Bidirectional => {
                self.streams_bidi_count += 1;
            },
            StreamType::Unidirectional => {
                self.streams_uni_count += 1;
            },
        }
    }

    /// Update maximum data limit, which never shrinks
    pub fn update_max_data(&mut self, new_limit: u64)
        ensures
            *final(self) == (FlowControlLimits {
                max_data: max_int(old(self).max_data as int, new_limit as int) as u64,
                ..*old(self)
            }),
            final(self).max_data >= new_limit && final(self).max_data >= old(self).max_data,
            final(self).max_data == new_limit || final(self).max_data == old(self).max_data,
    {
        if new_limit > self.max_data {
            self.max_data = new_limit;
        }
    }

    /// The limits with a new limit on the streams of a type, where it is larger.
    pub open spec fn with_max_streams(self, stream_type: StreamType, new_limit: u64) ->
        FlowControlLimits {
        match stream_type {
            StreamType::Bidirectional => FlowControlLimits {
                max_streams_bidi: max_int(self.max_streams_bidi as int, new_limit as int) as u64,
                ..self
            },
            StreamType::Unidirectional => FlowControlLimits {
                max_streams_uni: max_int(self.max_streams_uni as int, new_limit as int) as u64,
                ..self
            },
        }
    }

    /// Update maximum streams limit, which never shrinks
    pub fn update_max_streams(&mut self, stream_type: StreamType, new_limit: u64)
        ensures
            *final(self) == old(self).with_max_streams(stream_type, new_limit),
    {
        match stream_type {
            StreamType::Bidirectional => {
                if new_limit > self.max_streams_bidi {
                    self.max_streams_bidi = new_limit;
                }
            },
            StreamType::Unidirectional => {
                if new_limit > self.max_streams_uni {
                    self.max_streams_uni = new_limit;
                }
            },
        }
    }

    /// Check if we should send a MAX_DATA frame: when more than half of our receive window is
    /// consumed
    pub fn should_send_max_data(&self) -> (r: bool)
        ensures
            r == (2 * self.data_recv > self.max_data_recv),
    {
        more_than_half(self.data_recv, self.max_data_recv)
    }

    /// Check if we should send a MAX_STREAMS frame: when more than half of the streams of a type
    /// are in use
    pub fn should_send_max_streams(&self, stream_type: StreamType) -> (r: bool)
        ensures
            r == (2 * self.streams(stream_type) > self.max_streams(stream_type)),
    {
        match stream_type {
            StreamType::Bidirectional => more_than_half(
                self.streams_bidi_count,
                self.max_streams_bidi,
            ),
            StreamType::Unidirectional => more_than_half(
                self.streams_uni_count,
                self.max_streams_uni,
            ),
        }
    }

    /// Get available send window
    pub fn available_send_window(&self) -> (r: u64)
        ensures
            r == max_int(self.max_data - self.data_sent, 0),
    {
        self.max_data.saturating_sub(self.data_sent)
    }

    /// Get available receive window
    pub fn available_recv_window(&self) -> (r: u64)
        ensures
            r == max_int(self.max_data_recv - self.data_recv, 0),
    {
        self.max_data_recv.saturating_sub(self.data_recv)
    }
}

/// Whether a part is more than half of the whole
fn more_than_half(part: u64, whole: u64) -> (r: bool)
    ensures
        r == (2 * part > whole),
{
    part > whole / 2
}

/// Data that is sent only where it is allowed stays within the limit, also when the limit is
/// raised later.
pub proof fn allowed_data_stays_within_limit(f: FlowControlLimits, amount: u64, new_limit: u64)
    requires
        f.data_sent + amount <= f.max_data,
    ensures
        ({
            let g = FlowControlLimits {
                data_sent: (f.data_sent + amount) as u64,
                max_data: max_int(f.max_data as int, new_limit as int) as u64,
                ..f
            };
            g.data_sent <= g.max_data && g.max_data >= f.max_data
        }),
{
}

/// Streams that are opened only where it is allowed stay within the limit, also when the limit
/// is raised later.
pub proof fn allowed_streams_stay_within_limit(
    f: FlowControlLimits,
    stream_type: StreamType,
    new_limit: u64,
)
    requires
        f.streams(stream_type) < f.max_streams(stream_type),
    ensures
        ({
            let g = f.opened(stream_type).with_max_streams(stream_type, new_limit);
            g.streams(stream_type) <= g.max_streams(stream_type) && g.max_streams(stream_type)
                >= f.max_streams(stream_type)
        }),
{
}

} // verus!
