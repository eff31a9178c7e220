//! Configuration of the sink.

use vstd::prelude::*;

verus! {

/// Whether the sink reports back when a record was accepted.
#[derive(Clone, Copy, Debug, PartialEq, Eq, Structural)]
pub struct AcknowledgementsConfig {
    /// `None` leaves the decision to the pipeline.
    pub enabled: Option<bool>,
}

impl Default for AcknowledgementsConfig {
    fn default() -> (config: Self)
        ensures
            config.enabled is None,
    {
        AcknowledgementsConfig { enabled: None }
    }
}

/// Configuration of the journal sink.
#[derive(Clone, Debug)]
pub struct JournaldSinkConfig {
    pub acknowledgements: AcknowledgementsConfig,
    /// The path of the journal's Unix socket. This should be an absolute
    /// path.
    pub path: String,
}

/// The path at which the journal listens unless told otherwise.
pub fn default_journald_socket_path() -> (path: String)
    ensures
        path@ == "/run/systemd/journal/socket"@,
{
    "/run/systemd/journal/socket".to_owned()
}

impl Default for JournaldSinkConfig {
    fn default() -> (config: Self)
        ensures
            config.acknowledgements.enabled is None,
            config.path@ == "/run/systemd/journal/socket"@,
    {
        JournaldSinkConfig {
            acknowledgements: AcknowledgementsConfig { enabled: None },
            path: default_journald_socket_path(),
        }
    }
}

impl JournaldSinkConfig {
    /// The acknowledgement policy.
    pub fn acknowledgements(&self) -> (acknowledgements: &AcknowledgementsConfig)
        ensures
            *acknowledgements == self.acknowledgements,
    {
        &self.acknowledgements
    }
}

} // verus!
