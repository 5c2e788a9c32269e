use vstd::prelude::*;

verus! {

/// The validator process: it hosts the REST API and the consensus
/// application, neither of which runs until the validator is started.
pub struct Validator {
    rest_api_started: bool,
    tendermint_abci_started: bool,
}

impl Validator {
    /// Whether the REST API and the consensus application are running.
    pub closed spec fn services_started(&self) -> (bool, bool) {
        (self.rest_api_started, self.tendermint_abci_started)
    }

    /// A validator whose services are set up and not yet running.
    pub fn new() -> (r: Validator)
        ensures
            r.services_started() == (false, false),
    {
        Validator { rest_api_started: false, tendermint_abci_started: false }
    }
}

} // verus!
