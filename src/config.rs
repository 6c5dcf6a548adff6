//! The run configuration, as far as the library's decisions read it.
use vstd::prelude::*;

verus! {

/// The integer part of a training run's configuration. `desired_error` is the
/// key of the error at or below which a network stops its local search (see
/// [`crate::network::error_key_ok`]), or `None` when no error is good enough.
#[derive(Clone, Copy, Debug, PartialEq, Eq, Structural)]
pub struct DriverConfiguration {
    pub num_of_input_nodes: usize,
    pub num_of_output_nodes: usize,
    pub initial_network_size: usize,
    pub max_network_size: usize,
    pub num_of_networks: usize,
    pub num_of_node_mutation: usize,
    pub num_of_iterations: usize,
    pub num_of_batch_iterations: usize,
    pub batch_size: usize,
    pub num_of_cycles: usize,
    pub use_trained_networks: bool,
    pub desired_error: Option<u64>,
}

/// Why a configuration is refused.
#[derive(Clone, Copy, Debug, PartialEq, Eq, Structural)]
pub enum ConfigurationError {
    NoInputNodes,
    NoOutputNodes,
    EmptyInitialNetwork,
    MaxBelowInitialSize,
    TooFewNetworks,
    NoNodeMutations,
    EmptyBatch,
    NoCycles,
    /// The flat value space of a full-size network would not fit a `usize`.
    TooLarge,
}

impl DriverConfiguration {
    /// The first rule that the configuration breaks, in the order they are
    /// checked, or `None` when it is valid.
    pub open spec fn first_violation(self) -> Option<ConfigurationError> {
        if self.num_of_input_nodes == 0 {
            Some(ConfigurationError::NoInputNodes)
        } else if self.num_of_output_nodes == 0 {
            Some(ConfigurationError::NoOutputNodes)
        } else if self.initial_network_size == 0 {
            Some(ConfigurationError::EmptyInitialNetwork)
        } else if self.max_network_size < self.initial_network_size {
            Some(ConfigurationError::MaxBelowInitialSize)
        } else if self.num_of_networks <= 1 {
            Some(ConfigurationError::TooFewNetworks)
        } else if self.num_of_node_mutation == 0 {
            Some(ConfigurationError::NoNodeMutations)
        } else if self.batch_size == 0 {
            Some(ConfigurationError::EmptyBatch)
        } else if self.num_of_cycles == 0 {
            Some(ConfigurationError::NoCycles)
        } else if self.num_of_input_nodes + self.max_network_size > usize::MAX || self.num_of_networks
            == usize::MAX {
            Some(ConfigurationError::TooLarge)
        } else {
            None
        }
    }

    pub open spec fn valid(self) -> bool {
        self.first_violation() is None
    }

    /// Checks the configuration; the error is the first rule it breaks.
    pub fn validate(&self) -> (r: Result<(), ConfigurationError>)
        ensures
            r is Ok <==> self.valid(),
            r is Err ==> Some(r->Err_0) == self.first_violation(),
    {
        if self.num_of_input_nodes == 0 {
            Err(ConfigurationError::NoInputNodes)
        } else if self.num_of_output_nodes == 0 {
            Err(ConfigurationError::NoOutputNodes)
        } else if self.initial_network_size == 0 {
            Err(ConfigurationError::EmptyInitialNetwork)
        } else if self.max_network_size < self.initial_network_size {
            Err(ConfigurationError::MaxBelowInitialSize)
        } else if self.num_of_networks <= 1 {
            Err(ConfigurationError::TooFewNetworks)
        } else if self.num_of_node_mutation == 0 {
            Err(ConfigurationError::NoNodeMutations)
        } else if self.batch_size == 0 {
            Err(ConfigurationError::EmptyBatch)
        } else if self.num_of_cycles == 0 {
            Err(ConfigurationError::NoCycles)
        } else if self.max_network_size > usize::MAX - self.num_of_input_nodes || self.num_of_networks
            == usize::MAX {
            Err(ConfigurationError::TooLarge)
        } else {
            Ok(())
        }
    }
}

} // verus!
