use vstd::prelude::*;

verus! {

/// Immutable run configuration, fixed before the core starts.
#[derive(Clone, Copy)]
pub struct Config {
    /// Capacity of the fan-out hub, in records; at least 1, and at least 2
    /// when `backpressure` is enabled.
    pub queue_length: usize,
    /// Stall ingestion instead of dropping records when a subscriber is slow.
    pub backpressure: bool,
    /// Emit OVERRUN / BACKPRESSURE / EOF annotation lines to clients.
    pub announce_overruns: bool,
    /// Tear a connection down on its first lag event.
    pub disconnect_on_overruns: bool,
    /// Prefix every emitted line with a monotone timestamp.
    pub timestamps: bool,
    /// Emit a HELLO line at the start of each connection.
    pub hello_message: bool,
    /// Frames longer than this are split at this many bytes.
    pub max_frame_size: usize,
    /// Separate frames by NUL instead of newline.
    pub zero_separated: bool,
    /// Copy raw producer input verbatim to a secondary sink.
    pub tee: bool,
    /// Prefix content lines with their sequence number.
    pub print_sequence_numbers: bool,
    /// Number of recent content records replayed to a new client;
    /// `None` disables history entirely.
    pub history_length: Option<usize>,
    /// Do not consume producer input while no subscriber is connected.
    pub require_observer: bool,
}

/// A configuration rejected at startup, before any work is done.
#[derive(Clone, Copy, Debug, PartialEq, Eq, Structural)]
pub enum ConfigError {
    /// `backpressure` was requested with a hub capacity below 2.
    BackpressureNeedsCapacity,
    /// The hub capacity was 0; the hub must retain at least one record.
    ZeroQueueLength,
}

impl Config {
    /// A configuration the core will accept.
    pub open spec fn valid(self) -> bool {
        &&& self.queue_length >= 1
        &&& self.backpressure ==> self.queue_length >= 2
    }

    /// The separator byte frames are split on.
    pub open spec fn sep_spec(self) -> u8 {
        if self.zero_separated {
            0u8
        } else {
            10u8
        }
    }

    /// Validates the configuration; `Err` names the first offending setting.
    pub fn check(&self) -> (r: Result<(), ConfigError>)
        ensures
            r is Ok <==> self.valid(),
            self.backpressure && self.queue_length < 2 ==> r == Result::<(),
                ConfigError,
            >::Err(ConfigError::BackpressureNeedsCapacity),
            !(self.backpressure && self.queue_length < 2) && self.queue_length == 0 ==> r
                == Result::<(), ConfigError>::Err(ConfigError::ZeroQueueLength),
    {
        if self.backpressure && self.queue_length < 2 {
            Err(ConfigError::BackpressureNeedsCapacity)
        } else if self.queue_length == 0 {
            Err(ConfigError::ZeroQueueLength)
        } else {
            Ok(())
        }
    }

    /// The separator byte: NUL when `zero_separated`, newline otherwise.
    pub fn separator(&self) -> (b: u8)
        ensures
            b == self.sep_spec(),
    {
        if self.zero_separated {
            0u8
        } else {
            10u8
        }
    }
}

} // verus!
